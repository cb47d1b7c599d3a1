use crate::computation::distribution::{
    distribute, distributed, held_before, is_new_to, new_units_add_their_share, share,
    units_view,
};
use crate::swarm::tornado::{drifted, is_scan_of, Tornado, TornadoSwarm, Vec3};
use crate::text::{join_range, joined, joined_lists_join, split_words, words_of, SPACE};
use crate::trusted::{fresh_id, random_in, to_uppercase, uppercase_text};
use crate::units::subgraph::{
    ComputeNode, NodeState, Operation, OperationView, Subgraph, SubgraphView, AFFINITY_SCALE,
};
use std::collections::HashMap;
use vstd::prelude::*;
use vstd::string::StringExecFns;

verus! {

broadcast use vstd::std_specs::hash::group_hash_axioms;

/// Where a prompt stands on its way through the swarm. The states follow one
/// another in the order in which they are written here.
#[derive(Debug, Clone, Copy, PartialEq, Eq, Structural)]
pub enum PromptStatus {
    Sent,
    InWhirlwind,
    Processing,
    Assembling,
    Complete,
}

/// A run of one to three words of a prompt, and the unit of work that
/// carries it.
#[derive(Debug)]
pub struct PromptFragment {
    pub id: u128,
    pub content: String,
    pub subgraph_id: u128,
    pub processed: bool,
}

/// A prompt on its way through the swarm.
#[derive(Debug)]
pub struct SwarmPrompt {
    pub id: u128,
    pub content: String,
    pub origin: Vec3,
    pub status: PromptStatus,
    pub fragments: Vec<PromptFragment>,
}

impl Clone for PromptFragment {
    fn clone(&self) -> (res: Self)
        ensures
            res == *self,
    {
        PromptFragment {
            id: self.id,
            content: self.content.clone(),
            subgraph_id: self.subgraph_id,
            processed: self.processed,
        }
    }
}

impl Clone for SwarmPrompt {
    fn clone(&self) -> (res: Self)
        ensures
            res.id == self.id,
            res.content == self.content,
            res.origin == self.origin,
            res.status == self.status,
            res.fragments@ == self.fragments@,
    {
        let mut fragments: Vec<PromptFragment> = Vec::new();
        let mut i: usize = 0;
        while i < self.fragments.len()
            invariant
                i <= self.fragments@.len(),
                fragments@ == self.fragments@.take(i as int),
            decreases self.fragments.len() - i,
        {
            fragments.push(self.fragments[i].clone());
            assert(fragments@ =~= self.fragments@.take(i + 1));
            i += 1;
        }
        assert(fragments@ =~= self.fragments@);
        SwarmPrompt {
            id: self.id,
            content: self.content.clone(),
            origin: self.origin,
            status: self.status,
            fragments,
        }
    }
}

/// The contents of the fragments, in order.
pub open spec fn contents_of(fragments: Seq<PromptFragment>) -> Seq<Seq<char>> {
    Seq::new(fragments.len(), |i: int| fragments[i].content@)
}

/// The sum of the runs.
pub open spec fn runs_total(runs: Seq<int>) -> int
    decreases runs.len(),
{
    if runs.len() == 0 {
        0
    } else {
        runs_total(runs.drop_last()) + runs.last()
    }
}

/// Whether the runs cut `words` words into fragments: each run takes one to
/// three words, and together they take them all.
pub open spec fn valid_runs(runs: Seq<int>, words: int) -> bool {
    &&& forall|i: int| 0 <= i < runs.len() ==> 1 <= #[trigger] runs[i] <= 3
    &&& runs_total(runs) == words
}

/// The fragments that the runs cut the words into: each run of words joined
/// by single spaces, in the order of the words.
pub open spec fn fragments_of(words: Seq<Seq<char>>, runs: Seq<int>) -> Seq<Seq<char>>
    decreases runs.len(),
{
    if runs.len() == 0 {
        Seq::empty()
    } else {
        let cut = words.len() - runs.last();
        fragments_of(words.take(cut), runs.drop_last()).push(joined(words.skip(cut), SPACE@))
    }
}

/// Whether `contents` is a way to cut `words` into fragments.
pub open spec fn is_fragmentation(words: Seq<Seq<char>>, contents: Seq<Seq<char>>) -> bool {
    exists|runs: Seq<int>| #[trigger]
        valid_runs(runs, words.len() as int) && contents == fragments_of(words, runs)
}

/// Whether a unit carries a fragment: it has the given identifier, no lineage,
/// and one idle compute node that is to process the content.
pub open spec fn carries_fragment(unit: SubgraphView, id: u128, content: Seq<char>) -> bool {
    &&& unit.id == id
    &&& unit.parent is None
    &&& unit.children.len() == 0
    &&& unit.affinity < AFFINITY_SCALE
    &&& unit.nodes.len() == 1
    &&& unit.nodes[0].operation == OperationView::Process(content)
    &&& unit.nodes[0].state == NodeState::Idle
    &&& unit.nodes[0].metadata.len() == 0
}

/// Whether the batch holds, for each fragment in order, a unit that carries
/// it under the identifier that the fragment names.
pub open spec fn is_batch_for(batch: Seq<SubgraphView>, fragments: Seq<PromptFragment>) -> bool {
    &&& batch.len() == fragments.len()
    &&& forall|i: int|
        0 <= i < batch.len() ==> carries_fragment(
            #[trigger] batch[i],
            fragments[i].subgraph_id,
            fragments[i].content@,
        )
}

/// Whether the pool `after` is the pool `before` with one unit for each
/// fragment handed out in turn.
pub open spec fn fragments_distributed(
    before: Seq<Tornado>,
    after: Seq<Tornado>,
    fragments: Seq<PromptFragment>,
) -> bool {
    exists|batch: Seq<SubgraphView>| #[trigger]
        is_batch_for(batch, fragments) && distributed(before, after, batch)
}

/// Sends prompts through the swarm: a prompt is cut into fragments, the
/// fragments are handed to the containers, and the result is collected.
pub struct PromptProcessor {
    pub swarm: TornadoSwarm,
    pub active_prompts: HashMap<u128, SwarmPrompt>,
}

/// Where a fragment ends that starts at the word `start` of `total` words
/// and is to take `size` words: after `size` words, or at the end of the
/// words where fewer are left.
pub fn fragment_end(start: usize, total: usize, size: usize) -> (end: usize)
    ensures
        start + size <= total ==> end == start + size,
        start + size > total ==> end == total,
{
    if start >= total || size >= total - start {
        total
    } else {
        start + size
    }
}

/// The unit that carries a fragment.
fn unit_for_fragment(fragment: &PromptFragment) -> (unit: Subgraph)
    ensures
        carries_fragment(unit@, fragment.subgraph_id, fragment.content@),
{
    let mut unit = Subgraph::with_id(fragment.subgraph_id);
    let node = ComputeNode {
        id: fresh_id(),
        operation: Operation::Process(fragment.content.clone()),
        state: NodeState::Idle,
        metadata: Vec::new(),
    };
    unit.add_node(node);
    unit
}

impl PromptProcessor {
    /// A processor over the given pool, with no prompts under way.
    pub fn new(swarm: TornadoSwarm) -> (processor: PromptProcessor)
        ensures
            processor.swarm == swarm,
            processor.active_prompts@ == Map::<u128, SwarmPrompt>::empty(),
    {
        PromptProcessor { swarm, active_prompts: HashMap::new() }
    }

    /// Cuts a prompt into fragments. The words of the prompt are taken in
    /// order, one to three at a time as chance has it, and each run is joined
    /// by single spaces. Every fragment gets fresh identifiers for itself and
    /// for its unit of work, and is not yet processed.
    pub fn fragment_prompt(&self, prompt: &str, _prompt_id: u128) -> (fragments: Vec<
        PromptFragment,
    >)
        ensures
            is_fragmentation(words_of(prompt@), contents_of(fragments@)),
            forall|i: int| 0 <= i < fragments@.len() ==> !(#[trigger] fragments@[i]).processed,
    {
        let words = split_words(prompt);
        let ghost all = words_of(prompt@);
        let mut fragments: Vec<PromptFragment> = Vec::new();
        let ghost mut runs: Seq<int> = Seq::empty();
        let mut i: usize = 0;
        while i < words.len()
            invariant
                i <= words@.len(),
                words.deep_view() == all,
                forall|k: int| 0 <= k < runs.len() ==> 1 <= #[trigger] runs[k] <= 3,
                runs_total(runs) == i,
                contents_of(fragments@) == fragments_of(all.take(i as int), runs),
                forall|k: int| 0 <= k < fragments@.len() ==> !(#[trigger] fragments@[k]).processed,
            decreases words.len() - i,
        {
            let size = random_in(1, 4) as usize;
            let end = fragment_end(i, words.len(), size);
            let content = join_range(&words, i, end, SPACE);
            let ghost shorter = contents_of(fragments@);
            fragments.push(
                PromptFragment { id: fresh_id(), content, subgraph_id: fresh_id(), processed: false },
            );
            proof {
                let longer = runs.push(end - i);
                assert(longer.drop_last() =~= runs);
                assert(all.take(end as int).take(i as int) =~= all.take(i as int));
                assert(all.take(end as int).skip(i as int) =~= all.subrange(i as int, end as int));
                assert(contents_of(fragments@) =~= shorter.push(content@));
                runs = longer;
            }
            i = end;
        }
        proof {
            assert(all.take(i as int) =~= all);
            assert(valid_runs(runs, all.len() as int));
        }
        fragments
    }

    /// Hands one unit of work for each fragment of the prompt to the
    /// containers in turn. Where a prompt is kept under the identifier of
    /// this one, the kept prompt is then marked as being in the whirlwind;
    /// nothing else of it changes, and no prompt is added. An empty pool is
    /// given its default containers first.
    pub fn distribute_fragments(&mut self, prompt: SwarmPrompt)
        ensures
            fragments_distributed(
                old(self).swarm.tornadoes@,
                final(self).swarm.tornadoes@,
                prompt.fragments@,
            ),
            final(self).active_prompts@ == (if old(self).active_prompts@.contains_key(prompt.id) {
                old(self).active_prompts@.insert(
                    prompt.id,
                    SwarmPrompt {
                        status: PromptStatus::InWhirlwind,
                        ..old(self).active_prompts@[prompt.id]
                    },
                )
            } else {
                old(self).active_prompts@
            }),
    {
        let mut units: Vec<Subgraph> = Vec::new();
        let mut i: usize = 0;
        while i < prompt.fragments.len()
            invariant
                i <= prompt.fragments@.len(),
                units@.len() == i,
                forall|k: int|
                    0 <= k < i ==> carries_fragment(
                        (#[trigger] units@[k])@,
                        prompt.fragments@[k].subgraph_id,
                        prompt.fragments@[k].content@,
                    ),
            decreases prompt.fragments.len() - i,
        {
            units.push(unit_for_fragment(&prompt.fragments[i]));
            i += 1;
        }
        let ghost batch = units_view(units@);
        distribute(&mut self.swarm, units);
        assert(is_batch_for(batch, prompt.fragments@));
        match self.active_prompts.remove(&prompt.id) {
            Some(kept) => {
                let mut kept = kept;
                kept.status = PromptStatus::InWhirlwind;
                self.active_prompts.insert(prompt.id, kept);
                assert(self.active_prompts@ =~= old(self).active_prompts@.insert(
                    prompt.id,
                    SwarmPrompt {
                        status: PromptStatus::InWhirlwind,
                        ..old(self).active_prompts@[prompt.id]
                    },
                ));
            },
            None => {
                assert(self.active_prompts@ =~= old(self).active_prompts@);
            },
        }
    }

    /// Takes a prompt in: gives it a fresh identifier, cuts it into
    /// fragments, keeps it among the active prompts and hands its fragments
    /// to the containers. Returns the identifier at once; nothing has been
    /// computed yet.
    pub fn send_prompt(&mut self, prompt: &str) -> (prompt_id: u128)
        ensures
            final(self).active_prompts@.contains_key(prompt_id),
            final(self).active_prompts@ == old(self).active_prompts@.insert(
                prompt_id,
                final(self).active_prompts@[prompt_id],
            ),
            ({
                let kept = final(self).active_prompts@[prompt_id];
                &&& kept.id == prompt_id
                &&& kept.content@ == prompt@
                &&& kept.origin == (Vec3 { x: 0, y: 0, z: 0 })
                &&& kept.status == PromptStatus::InWhirlwind
                &&& is_fragmentation(words_of(prompt@), contents_of(kept.fragments@))
                &&& forall|i: int|
                    0 <= i < kept.fragments@.len() ==> !(#[trigger] kept.fragments@[i]).processed
                &&& fragments_distributed(
                    old(self).swarm.tornadoes@,
                    final(self).swarm.tornadoes@,
                    kept.fragments@,
                )
            }),
    {
        let prompt_id = fresh_id();
        let fragments = self.fragment_prompt(prompt, prompt_id);
        let swarm_prompt = SwarmPrompt {
            id: prompt_id,
            content: String::from_str(prompt),
            origin: Vec3::new(0, 0, 0),
            status: PromptStatus::Sent,
            fragments,
        };
        let kept = swarm_prompt.clone();
        proof {
            assert(contents_of(kept.fragments@) =~= contents_of(swarm_prompt.fragments@));
        }
        self.active_prompts.insert(prompt_id, kept);
        self.distribute_fragments(swarm_prompt);
        proof {
            assert(self.active_prompts@ =~= old(self).active_prompts@.insert(
                prompt_id,
                self.active_prompts@[prompt_id],
            ));
        }
        prompt_id
    }

    /// Advances the swarm by one time step of `delta_time` thousandths. No
    /// prompt in particular is advanced: every container moves and lets its
    /// units meet once. Returns what the containers report, by index.
    pub fn process_step(&mut self, delta_time: u32) -> (reports: Vec<Vec<(u128, u128)>>)
        ensures
            final(self).active_prompts == old(self).active_prompts,
            final(self).swarm.tornadoes@.len() == old(self).swarm.tornadoes@.len(),
            reports@.len() == old(self).swarm.tornadoes@.len(),
            forall|i: int|
                0 <= i < reports@.len() ==> {
                    &&& drifted(
                        old(self).swarm.tornadoes@[i]@,
                        (#[trigger] final(self).swarm.tornadoes@[i])@,
                        delta_time,
                    )
                    &&& is_scan_of(reports@[i]@, old(self).swarm.tornadoes@[i]@.units)
                },
    {
        self.swarm.simulate_step(delta_time)
    }

    /// Collects the result of a prompt: its content in upper case. The prompt
    /// stays among the active ones, as complete, so that it can be collected
    /// again. An identifier that names no active prompt gives `None` and
    /// changes nothing.
    pub fn collect_results(&mut self, prompt_id: u128) -> (result: Option<String>)
        ensures
            result is Some <==> old(self).active_prompts@.contains_key(prompt_id),
            result is Some ==> {
                &&& result->0@ == uppercase_text(old(self).active_prompts@[prompt_id].content@)
                &&& final(self).active_prompts@ == old(self).active_prompts@.insert(
                    prompt_id,
                    SwarmPrompt {
                        status: PromptStatus::Complete,
                        ..old(self).active_prompts@[prompt_id]
                    },
                )
            },
            result is None ==> final(self).active_prompts@ == old(self).active_prompts@,
            final(self).swarm == old(self).swarm,
    {
        match self.active_prompts.remove(&prompt_id) {
            Some(prompt) => {
                let mut prompt = prompt;
                prompt.status = PromptStatus::Assembling;
                let processed_content = to_uppercase(prompt.content.as_str());
                prompt.status = PromptStatus::Complete;
                self.active_prompts.insert(prompt_id, prompt);
                assert(self.active_prompts@ =~= old(self).active_prompts@.insert(
                    prompt_id,
                    SwarmPrompt {
                        status: PromptStatus::Complete,
                        ..old(self).active_prompts@[prompt_id]
                    },
                ));
                Some(processed_content)
            },
            None => {
                assert(self.active_prompts@ =~= old(self).active_prompts@);
                None
            },
        }
    }
}

proof fn lemma_runs_take_words(runs: Seq<int>)
    requires
        forall|i: int| 0 <= i < runs.len() ==> 1 <= #[trigger] runs[i] <= 3,
    ensures
        runs.len() <= runs_total(runs),
    decreases runs.len(),
{
    if runs.len() > 0 {
        lemma_runs_take_words(runs.drop_last());
    }
}

proof fn lemma_as_many_fragments_as_runs(words: Seq<Seq<char>>, runs: Seq<int>)
    ensures
        fragments_of(words, runs).len() == runs.len(),
    decreases runs.len(),
{
    if runs.len() > 0 {
        lemma_as_many_fragments_as_runs(
            words.take(words.len() - runs.last()),
            runs.drop_last(),
        );
    }
}

/// Whether the units of the fragments are new to a pool: no two fragments
/// name the same unit, and no container of the pool holds a unit that a
/// fragment names.
pub open spec fn fragments_are_new_to(fragments: Seq<PromptFragment>, pool: Seq<Tornado>) -> bool {
    &&& forall|i: int, j: int|
        0 <= i < j < fragments.len() ==> (#[trigger] fragments[i]).subgraph_id
            != (#[trigger] fragments[j]).subgraph_id
    &&& forall|i: int, w: int|
        0 <= i < fragments.len() && 0 <= w < pool.len() ==> !(#[trigger] pool[w])@.units.contains_key(
            (#[trigger] fragments[i]).subgraph_id,
        )
}

/// Handing out the fragments of a prompt whose units are new to the pool
/// takes nothing away: every container keeps each unit that it held, and
/// holds as many more as its share of the fragments, the fragment `i` going
/// to the container `i mod p`.
pub proof fn fragments_add_their_share(
    before: Seq<Tornado>,
    after: Seq<Tornado>,
    fragments: Seq<PromptFragment>,
)
    requires
        fragments_are_new_to(fragments, before),
        fragments_distributed(before, after, fragments),
    ensures
        forall|w: int|
            0 <= w < after.len() ==> (#[trigger] after[w])@.units.len() == held_before(
                before,
                w,
            ).len() + share(w, after.len() as int, fragments.len() as int),
        forall|w: int, id: u128|
            0 <= w < after.len() && #[trigger] held_before(before, w).contains_key(id)
                ==> after[w]@.units.contains_key(id) && after[w]@.units[id] == held_before(
                before,
                w,
            )[id],
{
    let batch = choose|batch: Seq<SubgraphView>| #[trigger]
        is_batch_for(batch, fragments) && distributed(before, after, batch);
    assert forall|i: int, j: int| 0 <= i < j < batch.len() implies (#[trigger] batch[i]).id
        != (#[trigger] batch[j]).id by {
        assert(batch[i].id == fragments[i].subgraph_id);
        assert(batch[j].id == fragments[j].subgraph_id);
    }
    assert forall|i: int, w: int| 0 <= i < batch.len() && 0 <= w < before.len() implies !(
    #[trigger] before[w])@.units.contains_key((#[trigger] batch[i]).id) by {
        assert(batch[i].id == fragments[i].subgraph_id);
    }
    assert(is_new_to(batch, before));
    new_units_add_their_share(before, after, batch);
}

/// Cutting a prompt into fragments keeps the words and their order: the
/// fragments, joined by single spaces, are the words joined by single spaces.
pub proof fn fragments_keep_the_words(words: Seq<Seq<char>>, runs: Seq<int>)
    requires
        valid_runs(runs, words.len() as int),
    ensures
        joined(fragments_of(words, runs), SPACE@) == joined(words, SPACE@),
    decreases runs.len(),
{
    if runs.len() == 0 {
        assert(words.len() == 0);
    } else {
        let cut = words.len() - runs.last();
        let head = words.take(cut);
        let tail = words.skip(cut);
        let earlier = fragments_of(head, runs.drop_last());
        lemma_runs_take_words(runs.drop_last());
        lemma_as_many_fragments_as_runs(head, runs.drop_last());
        fragments_keep_the_words(head, runs.drop_last());
        assert(words =~= head + tail);
        let all = earlier.push(joined(tail, SPACE@));
        assert(all.drop_last() =~= earlier);
        if runs.len() == 1 {
            assert(runs.drop_last().len() == 0);
            assert(cut == 0);
            assert(tail =~= words);
        } else {
            assert(head.len() > 0);
            joined_lists_join(head, tail, SPACE@);
        }
    }
}

} // verus!

use crate::computation::distribution::{
    default_position, distribute, spawn_defaults_if_empty, DEFAULT_WORKERS,
};
use crate::computation::model_decomposer::{
    layer_wise_yields_one_unit_per_layer, layers_view, recorded,
    DecompositionStrategy, LayerType, LayerTypeView, ModelDecomposer, ModelLayerView,
};
use crate::swarm::tornado::{Tornado, TornadoSwarm, TornadoView};
use crate::text::{concat3, decimal, decimal_string, split_words, words_of};
use crate::units::subgraph::{Subgraph, SubgraphView};
use vstd::prelude::*;
use vstd::string::StringExecFns;

verus! {

/// Where the processing of a prompt stands.
#[derive(Debug)]
pub enum PromptStatus {
    Pending,
    Processing,
    Completed,
    Failed(String),
}

/// What the processing of a prompt gave.
#[derive(Debug)]
pub struct SwarmPromptResult {
    pub status: PromptStatus,
    pub output: Option<String>,
    pub metadata: Vec<(String, String)>,
}

/// What a unit made from a layer of the given kind makes of a prompt.
pub open spec fn subgraph_result(kind: LayerTypeView, prompt: Seq<char>) -> Seq<char> {
    match kind {
        LayerTypeView::Embedding => "[Embedded: "@ + prompt + "]"@,
        LayerTypeView::Attention => "[Attended: "@ + prompt + "]"@,
        LayerTypeView::FeedForward => "[Processed: "@ + prompt + "]"@,
        LayerTypeView::Output => "[Output: "@ + prompt + "]"@,
        LayerTypeView::Custom(_) => "[Custom: "@ + prompt + "]"@,
    }
}

/// What inference on a unit made from a layer of the given kind reports, for
/// a prompt and a model with `parameter_count` parameters.
pub open spec fn inference_result(
    kind: LayerTypeView,
    prompt: Seq<char>,
    parameter_count: usize,
) -> Seq<char> {
    match kind {
        LayerTypeView::Embedding => "Embedded "@ + decimal(words_of(prompt).len())
            + " tokens"@,
        LayerTypeView::Attention => "Computed attention with 12 heads"@,
        LayerTypeView::FeedForward => "Processed through 768 hidden units"@,
        LayerTypeView::Output => "Projected to "@ + decimal((parameter_count / 1000) as nat)
            + " vocabulary tokens"@,
        LayerTypeView::Custom(_) => "Custom computation completed"@,
    }
}

/// One line for each of the first `upto` results, with its position.
pub open spec fn numbered_lines(results: Seq<Seq<char>>, upto: int) -> Seq<char>
    decreases upto,
{
    if upto <= 0 {
        Seq::empty()
    } else {
        numbered_lines(results, upto - 1) + ("   Subgraph "@ + decimal((upto - 1) as nat) + ": "@
            + results[upto - 1] + "\n"@)
    }
}

/// The report on a prompt that went through the swarm.
pub open spec fn swarm_report(prompt: Seq<char>, results: Seq<Seq<char>>) -> Seq<char> {
    "🌪️ Swarm processed: '"@ + prompt + "'\n"@ + "📊 Results from subgraphs:\n"@ + numbered_lines(
        results,
        results.len() as int,
    ) + "🎯 Final integrated response: "@ + "'"@ + prompt + "' processed through "@ + decimal(
        results.len(),
    ) + " subgraphs"@
}

/// The report on an inference that was spread over the swarm.
pub open spec fn inference_report(prompt: Seq<char>, results: Seq<Seq<char>>) -> Seq<char> {
    "🎯 Distributed inference results for '"@ + prompt + "':\n"@ + numbered_lines(
        results,
        results.len() as int,
    ) + "✅ All subgraphs processed successfully"@
}

/// For each layer in order, what its unit makes of the prompt.
pub open spec fn layer_results(layers: Seq<ModelLayerView>, prompt: Seq<char>) -> Seq<Seq<char>> {
    Seq::new(layers.len(), |i: int| subgraph_result(layers[i].layer_type, prompt))
}

/// For each layer in order, what inference on its unit reports.
pub open spec fn layer_inferences(
    layers: Seq<ModelLayerView>,
    prompt: Seq<char>,
    parameter_count: usize,
) -> Seq<Seq<char>> {
    Seq::new(
        layers.len(),
        |i: int| inference_result(layers[i].layer_type, prompt, parameter_count),
    )
}

/// Whether the records are those of a model cut layer by layer: the record
/// of units `rows` holds one unit for each layer, and the record by layer
/// `after` is `before` with that unit noted for each layer, in the order of
/// the layers.
pub open spec fn noted_each_layer(
    before: Map<u128, u128>,
    after: Map<u128, u128>,
    layers: Seq<ModelLayerView>,
    rows: Seq<Seq<u128>>,
) -> bool {
    &&& rows.len() == layers.len()
    &&& forall|li: int| 0 <= li < rows.len() ==> (#[trigger] rows[li]).len() == 1
    &&& after == recorded(before, layers, rows, layers.len() as int)
}

/// Whether the pool `after` is the pool `before`, or the default pool where
/// `before` is empty, with each of the first `touched` containers emptied.
pub open spec fn emptied(before: Seq<Tornado>, after: Seq<Tornado>, touched: int) -> bool {
    if before.len() == 0 {
        &&& after.len() == DEFAULT_WORKERS
        &&& forall|w: int|
            0 <= w < DEFAULT_WORKERS ==> {
                &&& (#[trigger] after[w])@.eye == default_position(w)
                &&& after[w]@.units == Map::<u128, SubgraphView>::empty()
            }
    } else {
        &&& after.len() == before.len()
        &&& forall|w: int|
            0 <= w < before.len() ==> (#[trigger] after[w])@ == (TornadoView {
                units: if w < touched {
                    Map::<u128, SubgraphView>::empty()
                } else {
                    before[w]@.units
                },
                ..before[w]@
            })
    }
}

/// Writes [`subgraph_result`].
pub fn process_subgraph(kind: &LayerType, prompt: &str) -> (text: String)
    ensures
        text@ == subgraph_result(kind@, prompt@),
{
    match kind {
        LayerType::Embedding => concat3("[Embedded: ", prompt, "]"),
        LayerType::Attention => concat3("[Attended: ", prompt, "]"),
        LayerType::FeedForward => concat3("[Processed: ", prompt, "]"),
        LayerType::Output => concat3("[Output: ", prompt, "]"),
        LayerType::Custom(_) => concat3("[Custom: ", prompt, "]"),
    }
}

/// Writes [`inference_result`].
pub fn simulate_inference_on_subgraph(kind: &LayerType, prompt: &str, parameter_count: usize) -> (text:
    String)
    ensures
        text@ == inference_result(kind@, prompt@, parameter_count),
{
    match kind {
        LayerType::Embedding => {
            let words = split_words(prompt);
            assert(words.deep_view().len() == words@.len());
            concat3("Embedded ", decimal_string(words.len()).as_str(), " tokens")
        },
        LayerType::Attention => String::from_str("Computed attention with 12 heads"),
        LayerType::FeedForward => String::from_str("Processed through 768 hidden units"),
        LayerType::Output => concat3(
            "Projected to ",
            decimal_string(parameter_count / 1000).as_str(),
            " vocabulary tokens",
        ),
        LayerType::Custom(_) => String::from_str("Custom computation completed"),
    }
}

/// Appends one numbered line for each result.
fn append_numbered_lines(text: &mut String, results: &Vec<String>)
    ensures
        final(text)@ == old(text)@ + numbered_lines(
            results.deep_view(),
            results@.len() as int,
        ),
{
    let mut i: usize = 0;
    assert(text@ =~= old(text)@ + numbered_lines(results.deep_view(), 0));
    while i < results.len()
        invariant
            i <= results@.len(),
            text@ == old(text)@ + numbered_lines(results.deep_view(), i as int),
        decreases results.len() - i,
    {
        let ghost before = text@;
        text.append("   Subgraph ");
        text.append(decimal_string(i).as_str());
        text.append(": ");
        text.append(results[i].as_str());
        text.append("\n");
        proof {
            let line = "   Subgraph "@ + decimal(i as nat) + ": "@ + results.deep_view()[i as int]
                + "\n"@;
            assert(results.deep_view()[i as int] == results@[i as int]@);
            assert(text@ =~= before + line);
            assert(text@ =~= old(text)@ + numbered_lines(results.deep_view(), i + 1));
        }
        i += 1;
    }
}

/// Writes [`swarm_report`].
pub fn reintegrate_results(results: &Vec<String>, original_prompt: &str) -> (text: String)
    ensures
        text@ == swarm_report(original_prompt@, results.deep_view()),
{
    let mut text = String::from_str("🌪️ Swarm processed: '");
    text.append(original_prompt);
    text.append("'\n");
    text.append("📊 Results from subgraphs:\n");
    append_numbered_lines(&mut text, results);
    text.append("🎯 Final integrated response: ");
    text.append("'");
    text.append(original_prompt);
    text.append("' processed through ");
    text.append(decimal_string(results.len()).as_str());
    text.append(" subgraphs");
    assert(results.deep_view().len() == results@.len());
    text
}

/// Writes [`inference_report`].
pub fn combine_inference_results(results: &Vec<String>, original_prompt: &str) -> (text: String)
    ensures
        text@ == inference_report(original_prompt@, results.deep_view()),
{
    let mut text = String::from_str("🎯 Distributed inference results for '");
    text.append(original_prompt);
    text.append("':\n");
    append_numbered_lines(&mut text, results);
    text.append("✅ All subgraphs processed successfully");
    assert(results.deep_view().len() == results@.len());
    text
}

/// Sends a prompt through the swarm by way of a model: the model is cut into
/// units of work, the units are handed to the containers, and what each makes
/// of the prompt is put together.
pub struct EnhancedProcessor {
    pub swarm: TornadoSwarm,
    pub decomposer: ModelDecomposer,
}

impl EnhancedProcessor {
    pub fn new(swarm: TornadoSwarm, decomposer: ModelDecomposer) -> (processor: EnhancedProcessor)
        ensures
            processor.swarm == swarm,
            processor.decomposer == decomposer,
    {
        EnhancedProcessor { swarm, decomposer }
    }

    /// Sends a prompt through the swarm. The model is cut layer by layer, the
    /// units are handed to the containers in turn, every container lets its
    /// units meet, each unit's result is written, and the results are put
    /// into one report. In the end every container gives up all its units.
    /// An empty pool is given its default containers first.
    pub fn process_prompt(&mut self, prompt: &str) -> (res: Result<SwarmPromptResult, String>)
        ensures
            res is Ok,
            res->Ok_0.status is Completed,
            res->Ok_0.metadata@.len() == 0,
            res->Ok_0.output is Some,
            res->Ok_0.output->0@ == swarm_report(
                prompt@,
                layer_results(layers_view(old(self).decomposer.model_layers@), prompt@),
            ),
            final(self).decomposer.model_layers == old(self).decomposer.model_layers,
            noted_each_layer(
                old(self).decomposer.subgraph_mapping@,
                final(self).decomposer.subgraph_mapping@,
                layers_view(old(self).decomposer.model_layers@),
                final(self).decomposer.unit_record.deep_view(),
            ),
            emptied(
                old(self).swarm.tornadoes@,
                final(self).swarm.tornadoes@,
                final(self).swarm.tornadoes@.len() as int,
            ),
    {
        let ghost layers = layers_view(self.decomposer.model_layers@);
        let subgraphs = self.decomposer.decompose_model(DecompositionStrategy::LayerWise);
        proof {
            layer_wise_yields_one_unit_per_layer(layers);
        }
        distribute(&mut self.swarm, subgraphs);
        let ghost filled = self.swarm.tornadoes@;
        let ghost decomposer = self.decomposer;
        let workers = self.swarm.tornadoes.len();
        let mut w: usize = 0;
        while w < workers
            invariant
                w <= workers,
                workers == self.swarm.tornadoes@.len(),
                self.swarm.tornadoes@ == filled,
                self.decomposer == decomposer,
            decreases workers - w,
        {
            let _ = self.swarm.tornadoes[w].spin();
            w += 1;
        }
        let mut results: Vec<String> = Vec::new();
        let mut i: usize = 0;
        while i < self.decomposer.model_layers.len()
            invariant
                i <= self.decomposer.model_layers@.len(),
                layers == layers_view(self.decomposer.model_layers@),
                results.deep_view() == layer_results(layers, prompt@).take(i as int),
                self.swarm.tornadoes@ == filled,
                self.decomposer == decomposer,
            decreases self.decomposer.model_layers.len() - i,
        {
            let ghost shorter = results.deep_view();
            let result = process_subgraph(&self.decomposer.model_layers[i].layer_type, prompt);
            results.push(result);
            assert(results.deep_view() =~= shorter.push(result@));
            assert(results.deep_view() =~= layer_results(layers, prompt@).take(i + 1));
            i += 1;
        }
        assert(layer_results(layers, prompt@).take(i as int) =~= layer_results(layers, prompt@));
        let final_result = reintegrate_results(&results, prompt);
        let mut w: usize = 0;
        while w < workers
            invariant
                w <= workers,
                workers == filled.len(),
                self.swarm.tornadoes@.len() == workers,
                forall|k: int|
                    0 <= k < w ==> (#[trigger] self.swarm.tornadoes@[k])@ == (TornadoView {
                        units: Map::<u128, SubgraphView>::empty(),
                        ..filled[k]@
                    }),
                forall|k: int| w <= k < workers ==> self.swarm.tornadoes@[k] == filled[k],
                self.decomposer == decomposer,
            decreases workers - w,
        {
            let _ = self.swarm.tornadoes[w].release_subgraphs();
            w += 1;
        }
        Ok(
            SwarmPromptResult {
                status: PromptStatus::Completed,
                output: Some(final_result),
                metadata: Vec::new(),
            },
        )
    }

    /// Runs an inference that is spread over the swarm, for a model with
    /// `parameter_count` parameters. The model is cut layer by layer. Each
    /// unit in turn is swept up by its container, has its inference written,
    /// and leaves the container again together with everything else that the
    /// container held. An empty pool is given its default containers first.
    pub fn run_distributed_inference(&mut self, prompt: &str, parameter_count: usize) -> (res:
        Result<String, String>)
        ensures
            res is Ok,
            res->Ok_0@ == inference_report(
                prompt@,
                layer_inferences(
                    layers_view(old(self).decomposer.model_layers@),
                    prompt@,
                    parameter_count,
                ),
            ),
            final(self).decomposer.model_layers == old(self).decomposer.model_layers,
            noted_each_layer(
                old(self).decomposer.subgraph_mapping@,
                final(self).decomposer.subgraph_mapping@,
                layers_view(old(self).decomposer.model_layers@),
                final(self).decomposer.unit_record.deep_view(),
            ),
            emptied(
                old(self).swarm.tornadoes@,
                final(self).swarm.tornadoes@,
                old(self).decomposer.model_layers@.len() as int,
            ),
    {
        let ghost layers = layers_view(self.decomposer.model_layers@);
        let ghost expected = layer_inferences(layers, prompt@, parameter_count);
        let subgraphs = self.decomposer.decompose_model(DecompositionStrategy::LayerWise);
        proof {
            layer_wise_yields_one_unit_per_layer(layers);
        }
        spawn_defaults_if_empty(&mut self.swarm);
        let ghost base = self.swarm.tornadoes@;
        let ghost decomposer = self.decomposer;
        let workers = self.swarm.tornadoes.len();
        let count = subgraphs.len();
        let mut results: Vec<String> = Vec::new();
        let mut i: usize = 0;
        for subgraph in it: subgraphs
            invariant
                i == it.index(),
                it.seq() == subgraphs@,
                count == subgraphs@.len(),
                count == self.decomposer.model_layers@.len(),
                self.decomposer == decomposer,
                layers == layers_view(self.decomposer.model_layers@),
                expected == layer_inferences(layers, prompt@, parameter_count),
                workers > 0,
                workers == base.len(),
                self.swarm.tornadoes@.len() == workers,
                results.deep_view() == expected.take(i as int),
                forall|w: int|
                    0 <= w < workers ==> (#[trigger] self.swarm.tornadoes@[w])@ == (TornadoView {
                        units: if w < i {
                            Map::<u128, SubgraphView>::empty()
                        } else {
                            base[w]@.units
                        },
                        ..base[w]@
                    }),
        {
            let target = i % workers;
            proof {
                if i < workers {
                    vstd::arithmetic::div_mod::lemma_small_mod(i as nat, workers as nat);
                }
            }
            self.swarm.tornadoes[target].sweep_up(subgraph);
            let ghost shorter = results.deep_view();
            let result = simulate_inference_on_subgraph(
                &self.decomposer.model_layers[i].layer_type,
                prompt,
                parameter_count,
            );
            results.push(result);
            let _ = self.swarm.tornadoes[target].release_subgraphs();
            proof {
                assert(results.deep_view() =~= shorter.push(result@));
                assert(results.deep_view() =~= expected.take(i + 1));
            }
            i += 1;
        }
        assert(expected.take(i as int) =~= expected);
        let final_result = combine_inference_results(&results, prompt);
        Ok(final_result)
    }
}

} // verus!

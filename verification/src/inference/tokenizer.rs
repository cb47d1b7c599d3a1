use crate::text::{same_text, split_words, words_of, SPACE};
use std::collections::HashMap;
use vstd::hash_map::StringHashMap;
use vstd::prelude::*;
use vstd::string::{StrSliceExecFns, StringExecFns};
use vstd::utf8::encode_utf8;

verus! {

broadcast use vstd::std_specs::hash::group_hash_axioms;

/// What `encode` reports when the positions in a text do not fit the machine's
/// word.
pub const TEXT_TOO_LONG: &'static str = "the text is too long for its positions to be counted";

/// One piece of a text: its number in the vocabulary, its own text, and the
/// bytes it is counted to span.
#[derive(Debug)]
pub struct Token {
    pub id: u32,
    pub text: String,
    pub start: usize,
    pub end: usize,
}

/// A [`Token`] as plain values.
pub struct TokenView {
    pub id: u32,
    pub text: Seq<char>,
    pub start: usize,
    pub end: usize,
}

impl View for Token {
    type V = TokenView;

    open spec fn view(&self) -> TokenView {
        TokenView { id: self.id, text: self.text@, start: self.start, end: self.end }
    }
}

impl Clone for Token {
    fn clone(&self) -> (res: Self)
        ensures
            res@ == self@,
    {
        Token { id: self.id, text: self.text.clone(), start: self.start, end: self.end }
    }
}

/// The tokens of a sequence as plain values.
pub open spec fn tokens_view(tokens: Seq<Token>) -> Seq<TokenView> {
    Seq::new(tokens.len(), |i: int| tokens[i]@)
}

/// The texts of the tokens, in order.
pub open spec fn token_texts(tokens: Seq<TokenView>) -> Seq<Seq<char>> {
    Seq::new(tokens.len(), |i: int| tokens[i].text)
}

/// The texts of the tokens, one after the other.
pub open spec fn texts_in_a_row(tokens: Seq<TokenView>) -> Seq<char>
    decreases tokens.len(),
{
    if tokens.len() == 0 {
        Seq::empty()
    } else {
        texts_in_a_row(tokens.drop_last()) + tokens.last().text
    }
}

/// A vocabulary as plain values: the number of each piece, the piece of each
/// number, and the count from which the next number is taken.
pub struct VocabularyView {
    pub ids: Map<Seq<char>, u32>,
    pub texts: Map<u32, Seq<char>>,
    pub size: usize,
}

/// The texts of a map from numbers to strings.
pub open spec fn texts_of(reverse: Map<u32, String>) -> Map<u32, Seq<char>> {
    reverse.map_values(|text: String| text@)
}

/// The vocabulary that every tokenizer starts with: padding, unknown, start
/// and end of sequence, numbered from 0.
pub open spec fn special_vocabulary() -> VocabularyView {
    VocabularyView {
        ids: Map::<Seq<char>, u32>::empty().insert("<pad>"@, 0).insert("<unk>"@, 1).insert(
            "<sos>"@,
            2,
        ).insert("<eos>"@, 3),
        texts: Map::<u32, Seq<char>>::empty().insert(0, "<pad>"@).insert(1, "<unk>"@).insert(
            2,
            "<sos>"@,
        ).insert(3, "<eos>"@),
        size: 4,
    }
}

/// The number that stands for a piece: its own, or that of the unknown token.
pub open spec fn token_id(ids: Map<Seq<char>, u32>, piece: Seq<char>) -> u32 {
    if ids.contains_key(piece) {
        ids[piece]
    } else {
        1
    }
}

/// The length of a text in bytes, as `str::len` counts it.
pub open spec fn byte_len(text: Seq<char>) -> usize {
    encode_utf8(text).len() as usize
}

/// The bytes that the words span when one separator follows each word.
pub open spec fn span(words: Seq<Seq<char>>) -> int
    decreases words.len(),
{
    if words.len() == 0 {
        0
    } else {
        span(words.drop_last()) + byte_len(words.last()) + 1
    }
}

/// One token for each word. A word starts where the words before it end,
/// counted with one separator after each.
pub open spec fn word_tokens(ids: Map<Seq<char>, u32>, words: Seq<Seq<char>>) -> Seq<TokenView> {
    Seq::new(
        words.len(),
        |i: int|
            TokenView {
                id: token_id(ids, words[i]),
                text: words[i],
                start: span(words.take(i)) as usize,
                end: (span(words.take(i)) + byte_len(words[i])) as usize,
            },
    )
}

/// The bytes that the characters take.
pub open spec fn offset(chars: Seq<char>) -> int
    decreases chars.len(),
{
    if chars.len() == 0 {
        0
    } else {
        offset(chars.drop_last()) + byte_len(seq![chars.last()])
    }
}

/// One token for each character, with the bytes that it takes in the text.
pub open spec fn char_tokens(ids: Map<Seq<char>, u32>, chars: Seq<char>) -> Seq<TokenView> {
    Seq::new(
        chars.len(),
        |i: int|
            TokenView {
                id: token_id(ids, seq![chars[i]]),
                text: seq![chars[i]],
                start: offset(chars.take(i)) as usize,
                end: (offset(chars.take(i)) + byte_len(seq![chars[i]])) as usize,
            },
    )
}

/// What a text encodes to when it is cut at white space.
pub open spec fn word_encoding(ids: Map<Seq<char>, u32>, text: Seq<char>) -> Option<
    Seq<TokenView>,
> {
    let words = words_of(text);
    if span(words) <= usize::MAX {
        Some(word_tokens(ids, words))
    } else {
        None
    }
}

/// What a text encodes to when it is cut into its characters.
pub open spec fn char_encoding(ids: Map<Seq<char>, u32>, text: Seq<char>) -> Option<
    Seq<TokenView>,
> {
    if offset(text) <= usize::MAX {
        Some(char_tokens(ids, text))
    } else {
        None
    }
}

/// What a tokenizer does, stated by three functions of its own: what a text
/// encodes to, what tokens decode to, and how large the vocabulary is.
pub trait Tokenizer {
    /// The tokens of a text, or `None` where its positions cannot be counted.
    spec fn encoding(&self, text: Seq<char>) -> Option<Seq<TokenView>>;

    /// The text of a sequence of tokens.
    spec fn decoding(&self, tokens: Seq<TokenView>) -> Seq<char>;

    /// The count of the vocabulary.
    spec fn size(&self) -> usize;

    fn encode(&self, text: &str) -> (res: Result<Vec<Token>, String>)
        ensures
            res is Ok <==> self.encoding(text@) is Some,
            res is Ok ==> tokens_view(res->Ok_0@) == self.encoding(text@)->0,
    ;

    fn decode(&self, tokens: &[Token]) -> (res: Result<String, String>)
        ensures
            res is Ok ==> res->Ok_0@ == self.decoding(tokens_view(tokens@)),
    ;

    fn vocab_size(&self) -> (n: usize)
        ensures
            n == self.size(),
    ;
}

/// A tokenizer that cuts a text at white space.
pub struct SimpleTokenizer {
    pub vocab: StringHashMap<u32>,
    pub reverse_vocab: HashMap<u32, String>,
    pub vocab_size: usize,
}

impl View for SimpleTokenizer {
    type V = VocabularyView;

    open spec fn view(&self) -> VocabularyView {
        VocabularyView {
            ids: self.vocab@,
            texts: texts_of(self.reverse_vocab@),
            size: self.vocab_size,
        }
    }
}

/// The four special tokens, as the two maps of a vocabulary.
fn special_tokens() -> (maps: (StringHashMap<u32>, HashMap<u32, String>))
    ensures
        maps.0@ == special_vocabulary().ids,
        texts_of(maps.1@) == special_vocabulary().texts,
{
    let mut vocab: StringHashMap<u32> = StringHashMap::new();
    let mut reverse_vocab: HashMap<u32, String> = HashMap::new();
    vocab.insert(String::from_str("<pad>"), 0);
    vocab.insert(String::from_str("<unk>"), 1);
    vocab.insert(String::from_str("<sos>"), 2);
    vocab.insert(String::from_str("<eos>"), 3);
    reverse_vocab.insert(0, String::from_str("<pad>"));
    reverse_vocab.insert(1, String::from_str("<unk>"));
    reverse_vocab.insert(2, String::from_str("<sos>"));
    reverse_vocab.insert(3, String::from_str("<eos>"));
    assert(texts_of(reverse_vocab@) =~= special_vocabulary().texts);
    (vocab, reverse_vocab)
}

/// How often `word` stands in `words`.
pub open spec fn occurrences(words: Seq<Seq<char>>, word: Seq<char>) -> nat
    decreases words.len(),
{
    if words.len() == 0 {
        0
    } else {
        occurrences(words.drop_last(), word) + if words.last() == word {
            1nat
        } else {
            0nat
        }
    }
}

/// The words without repetition, in the order in which each first stands.
pub open spec fn distinct(words: Seq<Seq<char>>) -> Seq<Seq<char>>
    decreases words.len(),
{
    if words.len() == 0 {
        Seq::empty()
    } else {
        let earlier = distinct(words.drop_last());
        if earlier.contains(words.last()) {
            earlier
        } else {
            earlier.push(words.last())
        }
    }
}

/// For each distinct word, in the order of [`distinct`], how often it stands
/// in `words`.
pub open spec fn tallies(words: Seq<Seq<char>>) -> Seq<usize> {
    Seq::new(distinct(words).len(), |i: int| occurrences(words, distinct(words)[i]) as usize)
}

/// The first position that holds the largest count.
pub open spec fn best(counts: Seq<usize>) -> int
    decreases counts.len(),
{
    if counts.len() <= 1 {
        0
    } else {
        let earlier = best(counts.drop_last());
        if counts.last() > counts[earlier] {
            counts.len() - 1
        } else {
            earlier
        }
    }
}

/// The words by falling count. Of two words with one count, the one that
/// stands earlier in `words` comes first.
pub open spec fn ranked(words: Seq<Seq<char>>, counts: Seq<usize>) -> Seq<Seq<char>>
    decreases words.len(),
{
    let first = best(counts);
    if counts.len() != words.len() || first < 0 || first >= words.len() {
        Seq::empty()
    } else {
        seq![words[first]] + ranked(words.remove(first), counts.remove(first))
    }
}

/// The distinct words of a text, the most frequent first; among equally
/// frequent words, the one that the text reaches first.
pub open spec fn frequency_ranking(words: Seq<Seq<char>>) -> Seq<Seq<char>> {
    ranked(distinct(words), tallies(words))
}

/// The vocabulary with `word` under the next number. A word that is already
/// there gets the new number, and keeps its old entry among the texts.
pub open spec fn with_word(vocabulary: VocabularyView, word: Seq<char>) -> VocabularyView {
    VocabularyView {
        ids: vocabulary.ids.insert(word, vocabulary.size as u32),
        texts: vocabulary.texts.insert(vocabulary.size as u32, word),
        size: (vocabulary.size + 1) as usize,
    }
}

/// The vocabulary with each of `words` added in turn.
pub open spec fn with_words(vocabulary: VocabularyView, words: Seq<Seq<char>>) -> VocabularyView
    decreases words.len(),
{
    if words.len() == 0 {
        vocabulary
    } else {
        with_word(with_words(vocabulary, words.drop_last()), words.last())
    }
}

/// How many words a vocabulary of `size` may still take under the limit `max`,
/// when `offered` words are there to take.
pub open spec fn room(size: usize, max: usize, offered: nat) -> int {
    if max <= size {
        0
    } else if offered <= max - size {
        offered as int
    } else {
        max - size
    }
}

proof fn lemma_occurrences_bound(words: Seq<Seq<char>>, word: Seq<char>)
    ensures
        occurrences(words, word) <= words.len(),
    decreases words.len(),
{
    if words.len() > 0 {
        lemma_occurrences_bound(words.drop_last(), word);
    }
}

proof fn lemma_unseen_word_has_no_occurrence(words: Seq<Seq<char>>, word: Seq<char>)
    requires
        !distinct(words).contains(word),
    ensures
        occurrences(words, word) == 0,
    decreases words.len(),
{
    if words.len() > 0 {
        let earlier = distinct(words.drop_last());
        if earlier.contains(words.last()) {
            assert(words.last() != word);
        } else {
            assert(earlier.push(words.last())[earlier.len() as int] == words.last());
            assert(words.last() != word);
            assert forall|i: int| 0 <= i < earlier.len() implies earlier[i] != word by {
                assert(earlier.push(words.last())[i] == earlier[i]);
            }
        }
        lemma_unseen_word_has_no_occurrence(words.drop_last(), word);
    }
}

proof fn lemma_span_grows(words: Seq<Seq<char>>, k: int)
    requires
        0 <= k <= words.len(),
    ensures
        0 <= span(words.take(k)) <= span(words),
    decreases words.len() - k,
{
    if k == words.len() {
        assert(words.take(k) =~= words);
        lemma_span_nonnegative(words);
    } else {
        lemma_span_grows(words, k + 1);
        assert(words.take(k + 1).drop_last() =~= words.take(k));
        lemma_span_nonnegative(words.take(k));
    }
}

proof fn lemma_span_nonnegative(words: Seq<Seq<char>>)
    ensures
        0 <= span(words),
    decreases words.len(),
{
    if words.len() > 0 {
        lemma_span_nonnegative(words.drop_last());
    }
}

proof fn lemma_offset_grows(chars: Seq<char>, k: int)
    requires
        0 <= k <= chars.len(),
    ensures
        0 <= offset(chars.take(k)) <= offset(chars),
    decreases chars.len() - k,
{
    if k == chars.len() {
        assert(chars.take(k) =~= chars);
        lemma_offset_nonnegative(chars);
    } else {
        lemma_offset_grows(chars, k + 1);
        assert(chars.take(k + 1).drop_last() =~= chars.take(k));
        lemma_offset_nonnegative(chars.take(k));
    }
}

proof fn lemma_offset_nonnegative(chars: Seq<char>)
    ensures
        0 <= offset(chars),
    decreases chars.len(),
{
    if chars.len() > 0 {
        lemma_offset_nonnegative(chars.drop_last());
    }
}

/// The first position of the largest count.
fn best_position(counts: &Vec<usize>) -> (at: usize)
    requires
        counts@.len() > 0,
    ensures
        at == best(counts@),
        at < counts@.len(),
{
    let mut at: usize = 0;
    let mut i: usize = 1;
    assert(counts@.take(1).drop_last().len() == 0);
    while i < counts.len()
        invariant
            1 <= i <= counts@.len(),
            at < i,
            at == best(counts@.take(i as int)),
        decreases counts.len() - i,
    {
        assert(counts@.take(i + 1).drop_last() =~= counts@.take(i as int));
        if counts[i] > counts[at] {
            at = i;
        }
        i += 1;
    }
    assert(counts@.take(i as int) =~= counts@);
    at
}

/// Counts the words: the distinct words in the order in which each first
/// stands, and beside each how often it stands.
fn tally(words: &Vec<String>) -> (counted: (Vec<String>, Vec<usize>))
    ensures
        counted.0.deep_view() == distinct(words.deep_view()),
        counted.1@ == tallies(words.deep_view()),
{
    let ghost all = words.deep_view();
    let mut seen: Vec<String> = Vec::new();
    let mut counts: Vec<usize> = Vec::new();
    let mut k: usize = 0;
    while k < words.len()
        invariant
            k <= words.len(),
            all == words.deep_view(),
            seen.deep_view() == distinct(all.take(k as int)),
            counts@.len() == seen@.len(),
            forall|i: int|
                0 <= i < counts@.len() ==> #[trigger] counts@[i] == occurrences(
                    all.take(k as int),
                    seen@[i]@,
                ),
        decreases words.len() - k,
    {
        let word = &words[k];
        let ghost before = all.take(k as int);
        let ghost now = all.take(k + 1);
        proof {
            assert(now.drop_last() =~= before);
            assert(now.last() == word@);
        }
        let mut found = false;
        let mut i: usize = 0;
        while i < seen.len()
            invariant
                i <= seen@.len(),
                counts@.len() == seen@.len(),
                now.len() == k + 1,
                now.drop_last() == before,
                now.last() == word@,
                k < words.len(),
                seen.deep_view() == distinct(before),
                found <==> exists|j: int| 0 <= j < i && seen@[j]@ == word@,
                forall|j: int|
                    0 <= j < i ==> #[trigger] counts@[j] == occurrences(now, seen@[j]@),
                forall|j: int|
                    i <= j < counts@.len() ==> #[trigger] counts@[j] == occurrences(
                        before,
                        seen@[j]@,
                    ),
            decreases seen.len() - i,
        {
            proof {
                lemma_occurrences_bound(before, seen@[i as int]@);
            }
            if same_text(seen[i].as_str(), word.as_str()) {
                found = true;
                let more = counts[i] + 1;
                counts.set(i, more);
            }
            i += 1;
        }
        proof {
            assert(found <==> distinct(before).contains(word@)) by {
                if found {
                    let j = choose|j: int| 0 <= j < seen@.len() && seen@[j]@ == word@;
                    assert(seen.deep_view()[j] == word@);
                }
                if distinct(before).contains(word@) {
                    let j = choose|j: int|
                        0 <= j < distinct(before).len() && distinct(before)[j] == word@;
                    assert(seen.deep_view()[j] == seen@[j]@);
                }
            }
        }
        if !found {
            proof {
                lemma_unseen_word_has_no_occurrence(before, word@);
            }
            let ghost shorter = seen.deep_view();
            seen.push(word.clone());
            counts.push(1);
            assert(seen.deep_view() =~= shorter.push(word@));
        }
        k += 1;
    }
    proof {
        assert(all.take(k as int) =~= all);
        assert forall|i: int| 0 <= i < counts@.len() implies counts@[i] == tallies(all)[i] by {
            assert(seen.deep_view()[i] == seen@[i]@);
        }
        assert(counts@ =~= tallies(all));
    }
    (seen, counts)
}

impl SimpleTokenizer {
    /// A tokenizer that knows the four special tokens.
    pub fn new() -> (tokenizer: SimpleTokenizer)
        ensures
            tokenizer@ == special_vocabulary(),
    {
        let (vocab, reverse_vocab) = special_tokens();
        SimpleTokenizer { vocab, reverse_vocab, vocab_size: 4 }
    }

    /// Adds the words of `text` to the vocabulary, the most frequent first,
    /// until the words run out or the vocabulary counts `max_vocab_size`.
    pub fn build_from_text(&mut self, text: &str, max_vocab_size: usize)
        ensures
            final(self)@ == with_words(
                old(self)@,
                frequency_ranking(words_of(text@)).take(
                    room(
                        old(self).vocab_size,
                        max_vocab_size,
                        distinct(words_of(text@)).len(),
                    ),
                ),
            ),
    {
        let words = split_words(text);
        let (mut seen, mut counts) = tally(&words);
        let ghost ranking = frequency_ranking(words_of(text@));
        let space: usize = if max_vocab_size <= self.vocab_size {
            0
        } else {
            max_vocab_size - self.vocab_size
        };
        let take: usize = if seen.len() <= space {
            seen.len()
        } else {
            space
        };
        let mut taken: usize = 0;
        while taken < take
            invariant
                taken <= take,
                take - taken <= seen@.len(),
                seen@.len() == counts@.len(),
                old(self).vocab_size + take <= usize::MAX,
                self.vocab_size == old(self).vocab_size + taken,
                ranking.take(taken as int) + ranked(seen.deep_view(), counts@) == ranking,
                ranking.take(taken as int).len() == taken,
                self@ == with_words(old(self)@, ranking.take(taken as int)),
            decreases take - taken,
        {
            let first = best_position(&counts);
            let ghost rest_words = seen.deep_view();
            let ghost rest_counts = counts@;
            let word = seen.remove(first);
            let _ = counts.remove(first);
            proof {
                assert(seen.deep_view() =~= rest_words.remove(first as int));
                assert(word@ == rest_words[first as int]);
                let done = ranking.take(taken as int);
                assert(ranking =~= done + (seq![word@] + ranked(seen.deep_view(), counts@)));
                assert(ranking.take(taken + 1) =~= done.push(word@));
                assert(ranking.take(taken + 1).drop_last() =~= done);
            }
            let id = #[verifier::truncate]
            (self.vocab_size as u32);
            let ghost texts = texts_of(self.reverse_vocab@);
            self.vocab.insert(word.clone(), id);
            self.reverse_vocab.insert(id, word);
            self.vocab_size = self.vocab_size + 1;
            assert(texts_of(self.reverse_vocab@) =~= texts.insert(id, word@));
            taken += 1;
        }
    }
}

impl Tokenizer for SimpleTokenizer {
    open spec fn encoding(&self, text: Seq<char>) -> Option<Seq<TokenView>> {
        word_encoding(self.vocab@, text)
    }

    open spec fn decoding(&self, tokens: Seq<TokenView>) -> Seq<char> {
        crate::text::joined(token_texts(tokens), SPACE@)
    }

    open spec fn size(&self) -> usize {
        self.vocab_size
    }

    /// One token for each word of the text. A word that the vocabulary lacks
    /// gets the number of the unknown token.
    fn encode(&self, text: &str) -> (res: Result<Vec<Token>, String>)
        ensures
            res is Err ==> res->Err_0@ == TEXT_TOO_LONG@,
    {
        let words = split_words(text);
        let ghost all = words_of(text@);
        let mut tokens: Vec<Token> = Vec::new();
        let mut pos: usize = 0;
        let mut i: usize = 0;
        while i < words.len()
            invariant
                i <= words.len(),
                words.deep_view() == all,
                all == words_of(text@),
                pos == span(all.take(i as int)),
                tokens@.len() == i,
                forall|j: int|
                    0 <= j < i ==> (#[trigger] tokens@[j])@ == word_tokens(self.vocab@, all)[j],
            decreases words.len() - i,
        {
            let word = &words[i];
            let len = word.as_str().len();
            proof {
                assert(words.deep_view()[i as int] == word@);
                assert(all.take(i + 1).drop_last() =~= all.take(i as int));
                assert(all.take(i + 1).last() == word@);
                assert(span(all.take(i + 1)) == pos + len + 1);
                lemma_span_grows(all, i + 1);
            }
            if len >= usize::MAX - pos {
                return Err(String::from_str(TEXT_TOO_LONG));
            }
            let id = match self.vocab.get(word.as_str()) {
                Some(id) => *id,
                None => 1,
            };
            tokens.push(Token { id, text: word.clone(), start: pos, end: pos + len });
            pos = pos + len + 1;
            i += 1;
        }
        proof {
            assert(all.take(i as int) =~= all);
            assert(tokens_view(tokens@) =~= word_tokens(self.vocab@, all));
        }
        Ok(tokens)
    }

    /// The texts of the tokens with a space between each two.
    fn decode(&self, tokens: &[Token]) -> (res: Result<String, String>)
        ensures
            res is Ok,
    {
        let mut texts: Vec<String> = Vec::new();
        let mut i: usize = 0;
        while i < tokens.len()
            invariant
                i <= tokens@.len(),
                texts.deep_view() == token_texts(tokens_view(tokens@)).take(i as int),
            decreases tokens.len() - i,
        {
            let ghost shorter = texts.deep_view();
            texts.push(tokens[i].text.clone());
            assert(texts.deep_view() =~= shorter.push(tokens@[i as int].text@));
            assert(texts.deep_view() =~= token_texts(tokens_view(tokens@)).take(i + 1));
            i += 1;
        }
        assert(token_texts(tokens_view(tokens@)).take(i as int) =~= token_texts(
            tokens_view(tokens@),
        ));
        Ok(crate::text::join_with(&texts, SPACE))
    }

    fn vocab_size(&self) -> (n: usize) {
        self.vocab_size
    }
}

/// The vocabulary with the character as a piece of its own under the next
/// number. A character that is already there changes nothing, and a
/// vocabulary whose count has reached the end of the machine's word takes no
/// more.
pub open spec fn with_char(vocabulary: VocabularyView, c: char) -> VocabularyView {
    if vocabulary.ids.contains_key(seq![c]) || vocabulary.size == usize::MAX {
        vocabulary
    } else {
        with_word(vocabulary, seq![c])
    }
}

/// The vocabulary with each of the characters added in turn.
pub open spec fn with_chars(vocabulary: VocabularyView, chars: Seq<char>) -> VocabularyView
    decreases chars.len(),
{
    if chars.len() == 0 {
        vocabulary
    } else {
        with_char(with_chars(vocabulary, chars.drop_last()), chars.last())
    }
}

/// The vocabulary with the characters of each word added in turn.
pub open spec fn with_chars_of(vocabulary: VocabularyView, words: Seq<Seq<char>>) -> VocabularyView
    decreases words.len(),
{
    if words.len() == 0 {
        vocabulary
    } else {
        with_chars(with_chars_of(vocabulary, words.drop_last()), words.last())
    }
}

/// A tokenizer that cuts a text into its characters.
pub struct BPETokenizer {
    pub vocab: StringHashMap<u32>,
    pub reverse_vocab: HashMap<u32, String>,
    pub vocab_size: usize,
    /// The pairs of pieces that were merged, each with the piece they make.
    pub merges: Vec<((String, String), String)>,
}

/// The view of this tokenizer is its vocabulary. The merges are not part of
/// it: what a function does to them it says of the field itself.
impl View for BPETokenizer {
    type V = VocabularyView;

    open spec fn view(&self) -> VocabularyView {
        VocabularyView {
            ids: self.vocab@,
            texts: texts_of(self.reverse_vocab@),
            size: self.vocab_size,
        }
    }
}

impl BPETokenizer {
    /// A tokenizer that knows the four special tokens and no merges.
    pub fn new() -> (tokenizer: BPETokenizer)
        ensures
            tokenizer@ == special_vocabulary(),
            tokenizer.merges@.len() == 0,
    {
        let (vocab, reverse_vocab) = special_tokens();
        BPETokenizer { vocab, reverse_vocab, vocab_size: 4, merges: Vec::new() }
    }

    /// Adds every character of every word of `text` to the vocabulary, in the
    /// order in which the text reaches them. No pieces are merged, whatever
    /// `num_merges` says.
    pub fn train(&mut self, text: &str, num_merges: usize)
        ensures
            final(self)@ == with_chars_of(old(self)@, words_of(text@)),
            final(self).merges == old(self).merges,
    {
        let words = split_words(text);
        let ghost all = words_of(text@);
        let mut k: usize = 0;
        while k < words.len()
            invariant
                k <= words.len(),
                words.deep_view() == all,
                self@ == with_chars_of(old(self)@, all.take(k as int)),
                self.merges == old(self).merges,
            decreases words.len() - k,
        {
            let word = &words[k];
            let ghost before = self@;
            proof {
                assert(words.deep_view()[k as int] == word@);
                assert(all.take(k + 1).drop_last() =~= all.take(k as int));
                assert(all.take(k + 1).last() == word@);
            }
            let n = word.as_str().unicode_len();
            let mut j: usize = 0;
            while j < n
                invariant
                    j <= n,
                    n == word@.len(),
                    self@ == with_chars(before, word@.take(j as int)),
                    self.merges == old(self).merges,
                decreases n - j,
            {
                let piece = String::from_str(word.as_str().substring_char(j, j + 1));
                let ghost c = word@[j as int];
                proof {
                    assert(piece@ =~= seq![c]);
                    assert(word@.take(j + 1).drop_last() =~= word@.take(j as int));
                    assert(word@.take(j + 1).last() == c);
                }
                if !self.vocab.contains_key(piece.as_str()) && self.vocab_size < usize::MAX {
                    let id = #[verifier::truncate]
                    (self.vocab_size as u32);
                    let ghost texts = texts_of(self.reverse_vocab@);
                    self.vocab.insert(piece.clone(), id);
                    self.reverse_vocab.insert(id, piece);
                    self.vocab_size = self.vocab_size + 1;
                    assert(texts_of(self.reverse_vocab@) =~= texts.insert(id, seq![c]));
                }
                j += 1;
            }
            assert(word@.take(j as int) =~= word@);
            k += 1;
        }
        assert(all.take(k as int) =~= all);
    }
}

impl Tokenizer for BPETokenizer {
    open spec fn encoding(&self, text: Seq<char>) -> Option<Seq<TokenView>> {
        char_encoding(self.vocab@, text)
    }

    open spec fn decoding(&self, tokens: Seq<TokenView>) -> Seq<char> {
        texts_in_a_row(tokens)
    }

    open spec fn size(&self) -> usize {
        self.vocab_size
    }

    /// One token for each character of the text. A character that the
    /// vocabulary lacks gets the number of the unknown token.
    fn encode(&self, text: &str) -> (res: Result<Vec<Token>, String>)
        ensures
            res is Err ==> res->Err_0@ == TEXT_TOO_LONG@,
    {
        let mut tokens: Vec<Token> = Vec::new();
        let mut pos: usize = 0;
        let n = text.unicode_len();
        let mut i: usize = 0;
        while i < n
            invariant
                i <= n,
                n == text@.len(),
                pos == offset(text@.take(i as int)),
                tokens@.len() == i,
                forall|j: int|
                    0 <= j < i ==> (#[trigger] tokens@[j])@ == char_tokens(self.vocab@, text@)[j],
            decreases n - i,
        {
            let piece = String::from_str(text.substring_char(i, i + 1));
            let ghost c = text@[i as int];
            let len = piece.as_str().len();
            proof {
                assert(piece@ =~= seq![c]);
                assert(text@.take(i + 1).drop_last() =~= text@.take(i as int));
                assert(text@.take(i + 1).last() == c);
                assert(offset(text@.take(i + 1)) == pos + len);
                lemma_offset_grows(text@, i + 1);
            }
            if len > usize::MAX - pos {
                return Err(String::from_str(TEXT_TOO_LONG));
            }
            let id = match self.vocab.get(piece.as_str()) {
                Some(id) => *id,
                None => 1,
            };
            tokens.push(Token { id, text: piece, start: pos, end: pos + len });
            pos = pos + len;
            i += 1;
        }
        proof {
            assert(text@.take(i as int) =~= text@);
            assert(tokens_view(tokens@) =~= char_tokens(self.vocab@, text@));
        }
        Ok(tokens)
    }

    /// The texts of the tokens, one after the other.
    fn decode(&self, tokens: &[Token]) -> (res: Result<String, String>)
        ensures
            res is Ok,
    {
        let mut text = String::new();
        let mut i: usize = 0;
        while i < tokens.len()
            invariant
                i <= tokens@.len(),
                text@ == texts_in_a_row(tokens_view(tokens@).take(i as int)),
            decreases tokens.len() - i,
        {
            text.append(tokens[i].text.as_str());
            proof {
                let views = tokens_view(tokens@);
                assert(views.take(i + 1).drop_last() =~= views.take(i as int));
                assert(views.take(i + 1).last() == tokens@[i as int]@);
            }
            i += 1;
        }
        assert(tokens_view(tokens@).take(i as int) =~= tokens_view(tokens@));
        Ok(text)
    }

    fn vocab_size(&self) -> (n: usize) {
        self.vocab_size
    }
}

/// Either of the two tokenizers.
pub enum AnyTokenizer {
    Simple(SimpleTokenizer),
    Bpe(BPETokenizer),
}

impl Tokenizer for AnyTokenizer {
    open spec fn encoding(&self, text: Seq<char>) -> Option<Seq<TokenView>> {
        match self {
            AnyTokenizer::Simple(tokenizer) => tokenizer.encoding(text),
            AnyTokenizer::Bpe(tokenizer) => tokenizer.encoding(text),
        }
    }

    open spec fn decoding(&self, tokens: Seq<TokenView>) -> Seq<char> {
        match self {
            AnyTokenizer::Simple(tokenizer) => tokenizer.decoding(tokens),
            AnyTokenizer::Bpe(tokenizer) => tokenizer.decoding(tokens),
        }
    }

    open spec fn size(&self) -> usize {
        match self {
            AnyTokenizer::Simple(tokenizer) => tokenizer.size(),
            AnyTokenizer::Bpe(tokenizer) => tokenizer.size(),
        }
    }

    fn encode(&self, text: &str) -> (res: Result<Vec<Token>, String>)
        ensures
            res is Err ==> res->Err_0@ == TEXT_TOO_LONG@,
    {
        match self {
            AnyTokenizer::Simple(tokenizer) => tokenizer.encode(text),
            AnyTokenizer::Bpe(tokenizer) => tokenizer.encode(text),
        }
    }

    fn decode(&self, tokens: &[Token]) -> (res: Result<String, String>)
        ensures
            res is Ok,
    {
        match self {
            AnyTokenizer::Simple(tokenizer) => tokenizer.decode(tokens),
            AnyTokenizer::Bpe(tokenizer) => tokenizer.decode(tokens),
        }
    }

    fn vocab_size(&self) -> (n: usize) {
        match self {
            AnyTokenizer::Simple(tokenizer) => tokenizer.vocab_size(),
            AnyTokenizer::Bpe(tokenizer) => tokenizer.vocab_size(),
        }
    }
}

/// Makes tokenizers by name.
pub struct TokenizerFactory;

impl TokenizerFactory {
    /// The tokenizer that cuts into characters for the name `bpe`, and the
    /// one that cuts at white space for `simple` and for every other name.
    /// Either knows the four special tokens and nothing else.
    pub fn create_tokenizer(tokenizer_type: &str) -> (tokenizer: AnyTokenizer)
        ensures
            tokenizer_type@ == "bpe"@ ==> (tokenizer matches AnyTokenizer::Bpe(made)
                && made@ == special_vocabulary() && made.merges@.len() == 0),
            tokenizer_type@ != "bpe"@ ==> (tokenizer matches AnyTokenizer::Simple(made)
                && made@ == special_vocabulary()),
    {
        if same_text(tokenizer_type, "bpe") {
            AnyTokenizer::Bpe(BPETokenizer::new())
        } else {
            AnyTokenizer::Simple(SimpleTokenizer::new())
        }
    }
}

} // verus!

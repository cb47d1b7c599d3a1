//! Building texts: numbers in decimal, and lists joined by a separator.

use vstd::prelude::*;
use vstd::string::{StrSliceExecFns, StringExecFns};

verus! {

/// The separator between the words of a joined text.
pub const SPACE: &'static str = " ";

/// The decimal digit for a value under ten.
pub open spec fn decimal_digit(value: nat) -> char {
    seq!['0', '1', '2', '3', '4', '5', '6', '7', '8', '9'][value as int]
}

/// A number in decimal, without leading zeros.
pub open spec fn decimal(n: nat) -> Seq<char>
    decreases n,
{
    if n < 10 {
        seq![decimal_digit(n)]
    } else {
        decimal(n / 10).push(decimal_digit(n % 10))
    }
}

/// The hexadecimal digit, in lower case, for a value under sixteen.
pub open spec fn hex_digit(value: int) -> char {
    seq!['0', '1', '2', '3', '4', '5', '6', '7', '8', '9', 'a', 'b', 'c', 'd', 'e', 'f'][value]
}

/// Sixteen to the power of `exponent`.
pub open spec fn sixteen_to(exponent: nat) -> nat
    decreases exponent,
{
    if exponent == 0 {
        1
    } else {
        16 * sixteen_to((exponent - 1) as nat)
    }
}

/// The hyphenated text of an identifier: its 32 hexadecimal digits in lower
/// case, the most significant first, in groups of 8, 4, 4, 4 and 12 with a
/// hyphen between two groups.
pub open spec fn uuid_text(id: u128) -> Seq<char> {
    Seq::new(
        36,
        |at: int|
            if at == 8 || at == 13 || at == 18 || at == 23 {
                '-'
            } else {
                let digit = if at < 8 {
                    at
                } else if at < 13 {
                    at - 1
                } else if at < 18 {
                    at - 2
                } else if at < 23 {
                    at - 3
                } else {
                    at - 4
                };
                hex_digit((id as int / sixteen_to((31 - digit) as nat) as int) % 16)
            },
    )
}

/// The parts in order, with the separator between each two.
pub open spec fn joined(parts: Seq<Seq<char>>, separator: Seq<char>) -> Seq<char>
    decreases parts.len(),
{
    if parts.len() == 0 {
        Seq::empty()
    } else if parts.len() == 1 {
        parts[0]
    } else {
        joined(parts.drop_last(), separator) + separator + parts.last()
    }
}

fn digit_str(value: usize) -> (text: &'static str)
    requires
        value < 10,
    ensures
        text@ == seq![decimal_digit(value as nat)],
{
    proof {
        reveal_strlit("0");
        reveal_strlit("1");
        reveal_strlit("2");
        reveal_strlit("3");
        reveal_strlit("4");
        reveal_strlit("5");
        reveal_strlit("6");
        reveal_strlit("7");
        reveal_strlit("8");
        reveal_strlit("9");
    }
    let text = if value == 0 {
        "0"
    } else if value == 1 {
        "1"
    } else if value == 2 {
        "2"
    } else if value == 3 {
        "3"
    } else if value == 4 {
        "4"
    } else if value == 5 {
        "5"
    } else if value == 6 {
        "6"
    } else if value == 7 {
        "7"
    } else if value == 8 {
        "8"
    } else {
        "9"
    };
    assert(text@ =~= seq![decimal_digit(value as nat)]);
    text
}

/// Writes a number in decimal.
pub fn decimal_string(n: usize) -> (text: String)
    ensures
        text@ == decimal(n as nat),
{
    let mut text = String::from_str(digit_str(n % 10));
    let mut rest = n / 10;
    while rest > 0
        invariant
            rest > 0 ==> decimal(n as nat) == decimal(rest as nat) + text@,
            rest == 0 ==> decimal(n as nat) == text@,
        decreases rest,
    {
        let digit = String::from_str(digit_str(rest % 10));
        assert(decimal(rest as nat) + text@ =~= if rest < 10 {
            digit@ + text@
        } else {
            decimal((rest / 10) as nat) + (digit@ + text@)
        });
        text = digit.concat(text.as_str());
        rest = rest / 10;
    }
    text
}

/// Joins the parts from `from` up to `to` with the separator between each
/// two.
pub(crate) fn join_range(parts: &Vec<String>, from: usize, to: usize, separator: &str) -> (text:
    String)
    requires
        from <= to <= parts@.len(),
    ensures
        text@ == joined(parts.deep_view().subrange(from as int, to as int), separator@),
{
    let mut text = String::new();
    let mut i: usize = from;
    while i < to
        invariant
            from <= i <= to <= parts@.len(),
            text@ == joined(parts.deep_view().subrange(from as int, i as int), separator@),
        decreases to - i,
    {
        if i > from {
            text.append(separator);
        }
        text.append(parts[i].as_str());
        proof {
            let before = parts.deep_view().subrange(from as int, i as int);
            let now = parts.deep_view().subrange(from as int, i + 1);
            assert(now.drop_last() =~= before);
            assert(now.last() == parts[i as int]@);
            if i == from {
                assert(text@ =~= now[0]);
            }
        }
        i += 1;
    }
    text
}

/// Joins the parts with the separator between each two.
pub fn join_with(parts: &Vec<String>, separator: &str) -> (text: String)
    ensures
        text@ == joined(parts.deep_view(), separator@),
{
    assert(parts.deep_view().subrange(0, parts@.len() as int) =~= parts.deep_view());
    join_range(parts, 0, parts.len(), separator)
}

/// The two texts, one after the other.
pub fn concat2(a: &str, b: &str) -> (text: String)
    ensures
        text@ == a@ + b@,
{
    String::from_str(a).concat(b)
}

/// The three texts, one after the other.
pub fn concat3(a: &str, b: &str, c: &str) -> (text: String)
    ensures
        text@ == a@ + b@ + c@,
{
    String::from_str(a).concat(b).concat(c)
}

/// Whether two texts hold the same characters.
pub fn same_text(a: &str, b: &str) -> (same: bool)
    ensures
        same == (a@ == b@),
{
    String::from_str(a) == String::from_str(b)
}

/// Joining two lists that both hold something, one after the other, is
/// joining each and putting the separator between the two texts.
pub proof fn joined_lists_join(a: Seq<Seq<char>>, b: Seq<Seq<char>>, separator: Seq<char>)
    requires
        a.len() > 0,
        b.len() > 0,
    ensures
        joined(a + b, separator) == joined(a, separator) + separator + joined(b, separator),
    decreases b.len(),
{
    assert((a + b).last() == b.last());
    if b.len() == 1 {
        assert((a + b).drop_last() =~= a);
    } else {
        assert((a + b).drop_last() =~= a + b.drop_last());
        joined_lists_join(a, b.drop_last(), separator);
        assert(joined(a + b, separator) =~= joined(a, separator) + separator + joined(
            b,
            separator,
        ));
    }
}

/// Whether a character is white space: one of the characters to which
/// Unicode gives the property `White_Space`.
pub open spec fn is_space(c: char) -> bool {
    let code = c as u32;
    ||| 0x09 <= code <= 0x0D
    ||| code == 0x20
    ||| code == 0x85
    ||| code == 0xA0
    ||| code == 0x1680
    ||| 0x2000 <= code <= 0x200A
    ||| code == 0x2028
    ||| code == 0x2029
    ||| code == 0x202F
    ||| code == 0x205F
    ||| code == 0x3000
}

/// The words of a text: its longest runs of characters that are not white
/// space, in order.
pub open spec fn words_of(text: Seq<char>) -> Seq<Seq<char>>
    decreases text.len(),
{
    if text.len() == 0 {
        Seq::empty()
    } else {
        let earlier = words_of(text.drop_last());
        if is_space(text.last()) {
            earlier
        } else if text.len() >= 2 && !is_space(text[text.len() - 2]) {
            earlier.drop_last().push(earlier.last().push(text.last()))
        } else {
            earlier.push(seq![text.last()])
        }
    }
}

/// Whether a character is white space.
pub fn is_whitespace(c: char) -> (yes: bool)
    ensures
        yes == is_space(c),
{
    let code = c as u32;
    (0x09 <= code && code <= 0x0D) || code == 0x20 || code == 0x85 || code == 0xA0 || code
        == 0x1680 || (0x2000 <= code && code <= 0x200A) || code == 0x2028 || code == 0x2029
        || code == 0x202F || code == 0x205F || code == 0x3000
}

/// Cuts a text into its words.
pub fn split_words(text: &str) -> (words: Vec<String>)
    ensures
        words.deep_view() == words_of(text@),
{
    let mut words: Vec<String> = Vec::new();
    let count = text.unicode_len();
    let mut start: usize = 0;
    let mut inside = false;
    let mut i: usize = 0;
    for c in it: text.chars()
        invariant
            i == it.index(),
            it.seq() == text@,
            count == text@.len(),
            inside ==> start < i,
            inside ==> forall|k: int| start <= k < i ==> !is_space(#[trigger] text@[k]),
            !inside && i > 0 ==> is_space(text@[i - 1]),
            words_of(text@.take(i as int)) == if inside {
                words.deep_view().push(text@.subrange(start as int, i as int))
            } else {
                words.deep_view()
            },
    {
        proof {
            assert(text@.take(i + 1).drop_last() =~= text@.take(i as int));
            assert(text@.take(i + 1).last() == c);
            if i > 0 {
                assert(text@.take(i + 1)[i - 1] == text@[i - 1]);
            }
        }
        let ghost listed = words.deep_view();
        if is_whitespace(c) {
            if inside {
                let word = String::from_str(text.substring_char(start, i));
                words.push(word);
                inside = false;
                assert(words.deep_view() =~= listed.push(text@.subrange(start as int, i as int)));
            }
        } else {
            if inside {
                assert(listed.push(text@.subrange(start as int, i as int)).drop_last() =~= listed);
                assert(text@.subrange(start as int, i as int).push(c) =~= text@.subrange(
                    start as int,
                    i + 1,
                ));
            } else {
                start = i;
                inside = true;
                assert(seq![c] =~= text@.subrange(i as int, i + 1));
            }
        }
        i += 1;
    }
    assert(text@.take(i as int) =~= text@);
    if inside {
        let ghost listed = words.deep_view();
        let word = String::from_str(text.substring_char(start, i));
        words.push(word);
        assert(words.deep_view() =~= listed.push(text@.subrange(start as int, i as int)));
    }
    words
}

} // verus!

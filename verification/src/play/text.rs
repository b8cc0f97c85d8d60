//! Text: letters, words and numbers.
use vstd::prelude::*;
use vstd::string::StrSliceExecFns;
use vstd::utf8::is_ascii_chars;

verus! {

/// A text in lower case, as Unicode has it.
pub uninterp spec fn lowercase(s: Seq<char>) -> Seq<char>;

/// An ASCII letter in lower case; any other character is its own.
pub open spec fn ascii_lower(c: char) -> char {
    if 'A' <= c <= 'Z' {
        (c as u32 + 32) as char
    } else {
        c
    }
}

/// `str::to_lowercase` of the standard library. What it returns depends on the
/// text alone and is named `lowercase`; of a text in ASCII it maps the letters
/// from `A` to `Z` to those from `a` to `z` and keeps all other characters.
#[verifier::external_body]
fn lowered(s: &str) -> (r: String)
    ensures
        r@ == lowercase(s@),
        is_ascii_chars(s@) ==> r@ == s@.map_values(|c: char| ascii_lower(c)),
{
    s.to_lowercase()
}

/// The characters of a text.
pub fn characters(s: &str) -> (r: Vec<char>)
    ensures
        r@ == s@,
{
    let n: usize = s.unicode_len();
    let mut out: Vec<char> = Vec::new();
    let mut i: usize = 0;
    while i < n
        invariant
            i <= n == s@.len(),
            out@ == s@.take(i as int),
        decreases n - i,
    {
        out.push(s.get_char(i));
        i = i + 1;
    }
    out
}

/// The characters of a text in lower case.
pub fn lower_characters(s: &str) -> (r: Vec<char>)
    ensures
        r@ == lowercase(s@),
        is_ascii_chars(s@) ==> r@ == s@.map_values(|c: char| ascii_lower(c)),
{
    characters(lowered(s).as_str())
}

/// Whether a character has the Unicode property of white space.
pub open spec fn is_space_of(c: char) -> bool {
    ('\u{9}' <= c <= '\u{d}') || c == ' ' || c == '\u{85}' || c == '\u{a0}' || c == '\u{1680}' || (
    '\u{2000}' <= c <= '\u{200a}') || c == '\u{2028}' || c == '\u{2029}' || c == '\u{202f}' || c
        == '\u{205f}' || c == '\u{3000}'
}

/// Whether a character has the Unicode property of white space.
pub fn is_space(c: char) -> (r: bool)
    ensures
        r == is_space_of(c),
{
    ('\u{9}' <= c && c <= '\u{d}') || c == ' ' || c == '\u{85}' || c == '\u{a0}' || c == '\u{1680}'
        || ('\u{2000}' <= c && c <= '\u{200a}') || c == '\u{2028}' || c == '\u{2029}' || c
        == '\u{202f}' || c == '\u{205f}' || c == '\u{3000}'
}

/// Whether `word` stands in `s` from place `from` on.
pub open spec fn stands_at(s: Seq<char>, from: nat, word: Seq<char>) -> bool {
    from + word.len() <= s.len() && s.subrange(from as int, (from + word.len()) as int) == word
}

/// Whether `word` stands in a list of characters from place `from` on.
pub fn word_stands(list: &Vec<char>, from: usize, word: &str) -> (r: bool)
    requires
        from <= list@.len(),
    ensures
        r == stands_at(list@, from as nat, word@),
{
    let n: usize = word.unicode_len();
    let len: usize = list.len();
    if n > len - from {
        return false;
    }
    let ghost part = list@.subrange(from as int, from + word@.len());
    let mut i: usize = 0;
    while i < n
        invariant
            i <= n == word@.len(),
            from + n <= len == list@.len(),
            part == list@.subrange(from as int, from + word@.len()),
            forall|k: int| 0 <= k < i ==> #[trigger] part[k] == word@[k],
        decreases n - i,
    {
        if list[from + i] != word.get_char(i) {
            proof {
                assert(part[i as int] != word@[i as int]);
            }
            return false;
        }
        i = i + 1;
    }
    proof {
        assert(part =~= word@);
    }
    true
}

/// Whether two texts are the same.
pub fn same_text(s: &str, word: &str) -> (r: bool)
    ensures
        r == (s@ == word@),
{
    let list = characters(s);
    let all: bool = list.len() == word.unicode_len() && word_stands(&list, 0, word);
    proof {
        if list@.len() == word@.len() {
            assert(list@.subrange(0, word@.len() as int) =~= list@);
        }
    }
    all
}

/// Whether every character is a decimal digit.
pub open spec fn all_digits(s: Seq<char>) -> bool {
    forall|i: int| 0 <= i < s.len() ==> '0' <= #[trigger] s[i] <= '9'
}

/// The number that decimal digits stand for.
pub open spec fn digits_value(s: Seq<char>) -> nat
    decreases s.len(),
{
    if s.len() == 0 {
        0
    } else {
        digits_value(s.drop_last()) * 10 + (s.last() as u32 - '0' as u32) as nat
    }
}

/// The number that a text stands for: decimal digits, perhaps after a plus sign,
/// for a number up to `max`.
pub open spec fn number_of(s: Seq<char>, max: nat) -> Option<nat> {
    let digits = if s.len() > 0 && s[0] == '+' {
        s.skip(1)
    } else {
        s
    };
    if digits.len() > 0 && all_digits(digits) && digits_value(digits) <= max {
        Some(digits_value(digits))
    } else {
        None
    }
}

/// More digits stand for no smaller number.
proof fn lemma_digits_grow(s: Seq<char>, n: int)
    requires
        0 <= n <= s.len(),
    ensures
        digits_value(s.take(n)) <= digits_value(s),
    decreases s.len() - n,
{
    if n < s.len() {
        assert(s.take(n + 1).drop_last() =~= s.take(n));
        lemma_digits_grow(s, n + 1);
    } else {
        assert(s.take(n) =~= s);
    }
}

/// The number that a text stands for: decimal digits, perhaps after a plus sign,
/// for a number up to `max`.
pub fn parse_number(s: &str, max: u64) -> (r: Option<u64>)
    ensures
        match number_of(s@, max as nat) {
            Some(n) => r == Some(n as u64) && n <= max,
            None => r is None,
        },
{
    let list = characters(s);
    let start: usize = if list.len() > 0 && list[0] == '+' {
        1
    } else {
        0
    };
    let ghost digits = if s@.len() > 0 && s@[0] == '+' {
        s@.skip(1)
    } else {
        s@
    };
    proof {
        assert(digits =~= s@.skip(start as int));
        assert(digits.take(0) =~= seq![]);
    }
    if list.len() == start {
        return None;
    }
    let mut value: u64 = 0;
    let mut i: usize = start;
    while i < list.len()
        invariant
            start <= i <= list@.len(),
            start < list@.len(),
            list@ == s@,
            start <= 1,
            digits == s@.skip(start as int),
            number_of(s@, max as nat) == (if all_digits(digits) && digits_value(digits) <= max {
                Some(digits_value(digits))
            } else {
                None
            }),
            value <= max,
            value == digits_value(digits.take(i - start)),
            forall|k: int| 0 <= k < i - start ==> '0' <= #[trigger] digits[k] <= '9',
        decreases list@.len() - i,
    {
        let c: char = list[i];
        proof {
            assert(digits[i - start] == c);
            assert(digits.take(i - start + 1).drop_last() =~= digits.take(i - start));
            assert(digits.take(i - start + 1).last() == c);
            lemma_digits_grow(digits, i - start + 1);
        }
        if !('0' <= c && c <= '9') {
            return None;
        }
        let digit: u64 = (c as u32 - '0' as u32) as u64;
        if value as u128 * 10 + digit as u128 > max as u128 {
            return None;
        }
        value = value * 10 + digit;
        i = i + 1;
    }
    proof {
        assert(digits.take(i - start) =~= digits);
    }
    Some(value)
}

} // verus!

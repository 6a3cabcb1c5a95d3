//! Character classes, runs and decimal digits shared by the text grammars.

use vstd::prelude::*;

verus! {

/// The character classes the text grammars are built from.
#[derive(Clone, Copy, Debug, PartialEq, Eq, Structural)]
pub enum CharClass {
    /// `0-9`
    Digit,
    /// `a-z`, `A-Z` and `_`
    Name,
    /// `a-z`, `A-Z` and `0-9`
    Value,
    /// `a-z`, `0-9`, `=` and `,`
    LowerProperty,
    /// `a-z` and `_`
    LowerName,
    /// anything but `,`
    NotComma,
    /// anything but `|`
    NotPipe,
    /// anything but `,` and `=`
    NotPropertySeparator,
}

pub open spec fn is_digit(c: char) -> bool {
    '0' <= c <= '9'
}

pub open spec fn is_letter(c: char) -> bool {
    ('a' <= c <= 'z') || ('A' <= c <= 'Z')
}

pub open spec fn in_class(cls: CharClass, c: char) -> bool {
    match cls {
        CharClass::Digit => is_digit(c),
        CharClass::Name => is_letter(c) || c == '_',
        CharClass::Value => is_letter(c) || is_digit(c),
        CharClass::LowerProperty => ('a' <= c <= 'z') || is_digit(c) || c == '=' || c == ',',
        CharClass::LowerName => ('a' <= c <= 'z') || c == '_',
        CharClass::NotComma => c != ',',
        CharClass::NotPipe => c != '|',
        CharClass::NotPropertySeparator => c != ',' && c != '=',
    }
}

pub fn char_in_class(cls: CharClass, c: char) -> (r: bool)
    ensures
        r == in_class(cls, c),
{
    match cls {
        CharClass::Digit => '0' <= c && c <= '9',
        CharClass::Name => ('a' <= c && c <= 'z') || ('A' <= c && c <= 'Z') || c == '_',
        CharClass::Value => ('a' <= c && c <= 'z') || ('A' <= c && c <= 'Z') || ('0' <= c && c
            <= '9'),
        CharClass::LowerProperty => ('a' <= c && c <= 'z') || ('0' <= c && c <= '9') || c == '='
            || c == ',',
        CharClass::LowerName => ('a' <= c && c <= 'z') || c == '_',
        CharClass::NotComma => c != ',',
        CharClass::NotPipe => c != '|',
        CharClass::NotPropertySeparator => c != ',' && c != '=',
    }
}

/// The end of the longest run of `cls` characters starting at `i`.
pub open spec fn run_end(s: Seq<char>, i: int, cls: CharClass) -> int
    decreases s.len() - i,
{
    if i < 0 || i >= s.len() || !in_class(cls, s[i]) {
        i
    } else {
        run_end(s, i + 1, cls)
    }
}

pub proof fn lemma_run_end(s: Seq<char>, i: int, j: int, cls: CharClass)
    requires
        0 <= i <= j <= s.len(),
        forall|k: int| i <= k < j ==> in_class(cls, #[trigger] s[k]),
        j == s.len() || !in_class(cls, s[j]),
    ensures
        run_end(s, i, cls) == j,
    decreases j - i,
{
    if i < j {
        lemma_run_end(s, i + 1, j, cls);
    }
}

pub proof fn lemma_run_end_bounds(s: Seq<char>, i: int, cls: CharClass)
    requires
        0 <= i <= s.len(),
    ensures
        i <= run_end(s, i, cls) <= s.len(),
        forall|k: int| i <= k < run_end(s, i, cls) ==> in_class(cls, #[trigger] s[k]),
        run_end(s, i, cls) == s.len() || !in_class(cls, s[run_end(s, i, cls)]),
    decreases s.len() - i,
{
    if i < s.len() && in_class(cls, s[i]) {
        lemma_run_end_bounds(s, i + 1, cls);
    }
}

/// The end of the run of `cls` characters in `chars` that starts at `i`.
pub fn scan(chars: &Vec<char>, i: usize, cls: CharClass) -> (r: usize)
    requires
        i <= chars@.len(),
    ensures
        r == run_end(chars@, i as int, cls),
        i <= r <= chars@.len(),
{
    let mut j = i;
    while j < chars.len() && char_in_class(cls, chars[j])
        invariant
            i <= j <= chars@.len(),
            forall|k: int| i <= k < j ==> in_class(cls, #[trigger] chars@[k]),
        decreases chars.len() - j,
    {
        j = j + 1;
    }
    proof {
        lemma_run_end(chars@, i as int, j as int, cls);
    }
    j
}

/// The number that the decimal digits `s[lo..hi]` spell.
pub open spec fn digits_value(s: Seq<char>, lo: int, hi: int) -> nat
    decreases hi - lo,
{
    if hi <= lo {
        0
    } else {
        digits_value(s, lo, hi - 1) * 10 + ((s[hi - 1] as u32) as int - 48) as nat
    }
}

pub open spec fn saturate(v: nat) -> u64 {
    if v <= u64::MAX {
        v as u64
    } else {
        u64::MAX
    }
}

pub proof fn lemma_digits_grow(s: Seq<char>, lo: int, hi: int)
    requires
        lo < hi,
    ensures
        digits_value(s, lo, hi) >= digits_value(s, lo, hi - 1),
{
}

/// The value of the digits `chars[lo..hi]`, or `u64::MAX` where it is larger.
pub fn digits_saturating(chars: &Vec<char>, lo: usize, hi: usize) -> (r: u64)
    requires
        lo <= hi <= chars@.len(),
        forall|k: int| lo <= k < hi ==> is_digit(#[trigger] chars@[k]),
    ensures
        r == saturate(digits_value(chars@, lo as int, hi as int)),
{
    let mut acc: u64 = 0;
    let mut i = lo;
    while i < hi
        invariant
            lo <= i <= hi <= chars@.len(),
            forall|k: int| lo <= k < hi ==> is_digit(#[trigger] chars@[k]),
            acc == saturate(digits_value(chars@, lo as int, i as int)),
        decreases hi - i,
    {
        let d = (chars[i] as u32 - 48) as u64;
        assert(is_digit(chars@[i as int]));
        proof {
            lemma_digits_grow(chars@, lo as int, i + 1);
        }
        if acc > (u64::MAX - d) / 10 {
            acc = u64::MAX;
        } else {
            acc = acc * 10 + d;
        }
        i = i + 1;
    }
    acc
}

} // verus!

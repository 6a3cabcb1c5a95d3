//! Weighted block patterns: their grammar, masks and weighted picking.

use vstd::prelude::*;
use vstd::string::StrSliceExecFns;
use rand::Rng;
use crate::grammar::{
    CharClass, digits_saturating, digits_value, in_class, is_digit, lemma_run_end,
    lemma_run_end_bounds, run_end, saturate, scan,
};
use crate::registry::BlockRegistry;

verus! {

/// The weight of a part written without a percentage: 100%, in millionths
/// of the whole.
pub const FULL_WEIGHT: u64 = 1000000;

/// One weighted choice of a pattern. `weight` is in millionths of the whole
/// (a part written `50%` weighs 500000).
#[derive(Clone, Copy, Debug, PartialEq, Eq, Structural)]
pub struct WorldEditPatternPart {
    pub weight: u64,
    pub block_id: u32,
}

/// Why a pattern was refused; each carries the text of the offending part.
#[derive(Debug)]
pub enum PatternParseError {
    UnknownBlock(String),
    InvalidPattern(String),
}

/// The two ways a single part can fail.
#[derive(Clone, Copy, Debug, PartialEq, Eq, Structural)]
pub enum PartFailure {
    UnknownBlock,
    InvalidPattern,
}

pub open spec fn minecraft_prefix() -> Seq<char> {
    seq!['m', 'i', 'n', 'e', 'c', 'r', 'a', 'f', 't', ':']
}

pub open spec fn pow10(n: nat) -> nat
    decreases n,
{
    if n == 0 {
        1
    } else {
        10 * pow10((n - 1) as nat)
    }
}

/// The optional leading `<digits>[.<digits>]%` of a part: the end of the whole
/// digits, the end of the fraction digits, and where the rest of the part
/// starts (0 where there is no percentage).
pub open spec fn weight_prefix(s: Seq<char>) -> (int, int, int) {
    let d = run_end(s, 0, CharClass::Digit);
    if d == 0 || d >= s.len() {
        (0, 0, 0)
    } else if s[d] == '%' {
        (d, d, d + 1)
    } else if s[d] == '.' {
        let f = run_end(s, d + 1, CharClass::Digit);
        if f > d + 1 && f < s.len() && s[f] == '%' {
            (d, f, f + 1)
        } else {
            (0, 0, 0)
        }
    } else {
        (0, 0, 0)
    }
}

/// How many fraction digits of a percentage count: four at most.
pub open spec fn kept_fraction(d: int, f: int) -> int {
    if f <= d {
        0
    } else if f - (d + 1) > 4 {
        4
    } else {
        f - (d + 1)
    }
}

/// The weight a percentage stands for, in millionths of the whole (the
/// percentage in ten-thousandths); fraction digits past the fourth are
/// dropped, and a weight past `u64::MAX` is held at it.
pub open spec fn weight_value(s: Seq<char>, d: int, f: int, rest: int) -> u64 {
    if rest == 0 {
        FULL_WEIGHT
    } else {
        let m = kept_fraction(d, f);
        let frac = digits_value(s, d + 1, d + 1 + m) * pow10((4 - m) as nat);
        saturate(digits_value(s, 0, d) * 10000 + frac)
    }
}

/// The span of the block reference that starts at `t`: after `=`, a decimal
/// id; else digits, or a name with an optional `minecraft:` prefix (the span
/// leaves the prefix out).
pub open spec fn token_span(s: Seq<char>, t: int, eq: bool) -> Option<(int, int)> {
    if eq {
        let e = run_end(s, t, CharClass::Digit);
        if e > t {
            Some((t, e))
        } else {
            None
        }
    } else if 0 <= t < s.len() && is_digit(s[t]) {
        Some((t, run_end(s, t, CharClass::Digit)))
    } else if 0 <= t && t + 10 < s.len() && s.subrange(t, t + 10) == minecraft_prefix() && in_class(
        CharClass::Name,
        s[t + 10],
    ) {
        Some((t + 10, run_end(s, t + 10, CharClass::Name)))
    } else {
        let e = run_end(s, t, CharClass::Name);
        if e > t {
            Some((t, e))
        } else {
            None
        }
    }
}

/// The end of a `key=value[,]...]` property list that starts at `i` (just
/// past its `]`).
pub open spec fn props_end(s: Seq<char>, i: int) -> Option<int>
    decreases s.len() - i,
{
    if i < 0 || i >= s.len() {
        None
    } else {
        let k = run_end(s, i, CharClass::Name);
        if k == i || k >= s.len() || s[k] != '=' {
            None
        } else {
            let v = run_end(s, k + 1, CharClass::Value);
            if v == k + 1 {
                None
            } else {
                let p = if v < s.len() && s[v] == ',' {
                    v + 1
                } else {
                    v
                };
                if p < s.len() && s[p] == ']' {
                    Some(p + 1)
                } else if p <= i || p > s.len() {
                    None
                } else {
                    props_end(s, p)
                }
            }
        }
    }
}

/// The end of the optional `:<digits>` or `[properties]` suffix at `te`.
pub open spec fn suffix_end(s: Seq<char>, te: int) -> Option<int> {
    if 0 <= te < s.len() && s[te] == ':' {
        let v = run_end(s, te + 1, CharClass::Digit);
        if v > te + 1 {
            Some(v)
        } else {
            None
        }
    } else if 0 <= te < s.len() && s[te] == '[' {
        props_end(s, te + 1)
    } else {
        Some(te)
    }
}

/// Whether the part ends at `i` with at most `4 - count` more `|`-led
/// segments.
pub open spec fn pipes_ok(s: Seq<char>, i: int, count: nat) -> bool
    decreases s.len() - i,
{
    if i < 0 {
        false
    } else if i >= s.len() {
        true
    } else if s[i] != '|' || count >= 4 {
        false
    } else {
        let e = run_end(s, i + 1, CharClass::NotPipe);
        if e <= i || e > s.len() {
            false
        } else {
            pipes_ok(s, e, count + 1)
        }
    }
}

/// The shape of one well-formed part.
pub struct PartSyntax {
    pub weight: u64,
    pub raw_id: bool,
    pub lo: int,
    pub hi: int,
}

/// The grammar of one part:
/// `[<digits>[.<digits>]%][=](<digits>|[minecraft:]<name>)[:<digits>|[<key>=<value>[,]...]][|...]{0,4}`.
pub open spec fn part_syntax(s: Seq<char>) -> Option<PartSyntax> {
    let w = weight_prefix(s);
    let eq = w.2 < s.len() && s[w.2] == '=';
    let t = if eq {
        w.2 + 1
    } else {
        w.2
    };
    match token_span(s, t, eq) {
        None => None,
        Some(sp) => match suffix_end(s, sp.1) {
            None => None,
            Some(e) => if pipes_ok(s, e, 0) {
                Some(PartSyntax { weight: weight_value(s, w.0, w.1, w.2), raw_id: eq, lo: sp.0, hi: sp.1 })
            } else {
                None
            },
        },
    }
}

/// What one part resolves to against the registry.
pub open spec fn resolve_part(s: Seq<char>, reg: BlockRegistry) -> Result<WorldEditPatternPart, PartFailure> {
    match part_syntax(s) {
        None => Err(PartFailure::InvalidPattern),
        Some(p) => if p.raw_id {
            let v = digits_value(s, p.lo, p.hi);
            if v <= u32::MAX {
                Ok(WorldEditPatternPart { weight: p.weight, block_id: v as u32 })
            } else {
                Err(PartFailure::InvalidPattern)
            }
        } else {
            match reg.id_of_name(s.subrange(p.lo, p.hi)) {
                Some(id) => Ok(WorldEditPatternPart { weight: p.weight, block_id: id }),
                None => Err(PartFailure::UnknownBlock),
            }
        },
    }
}

/// The comma-separated pieces of `s`.
pub open spec fn split_commas(s: Seq<char>) -> Seq<Seq<char>>
    decreases s.len(),
{
    let c = run_end(s, 0, CharClass::NotComma);
    if c < 0 || c >= s.len() {
        seq![s]
    } else {
        seq![s.subrange(0, c)] + split_commas(s.subrange(c + 1, s.len() as int))
    }
}

pub proof fn lemma_digits_below_pow(s: Seq<char>, lo: int, hi: int)
    requires
        lo <= hi,
        forall|k: int| lo <= k < hi ==> is_digit(#[trigger] s[k]),
    ensures
        digits_value(s, lo, hi) < pow10((hi - lo) as nat),
    decreases hi - lo,
{
    if lo < hi {
        lemma_digits_below_pow(s, lo, hi - 1);
        assert(pow10((hi - lo) as nat) == 10 * pow10((hi - 1 - lo) as nat));
    }
}

fn pow10_exec(n: u32) -> (r: u64)
    requires
        n <= 4,
    ensures
        r == pow10(n as nat),
        r <= 10000,
{
    proof {
        reveal_with_fuel(pow10, 5);
    }
    if n == 0 {
        1
    } else if n == 1 {
        10
    } else if n == 2 {
        100
    } else if n == 3 {
        1000
    } else {
        10000
    }
}

fn weight_prefix_exec(chars: &Vec<char>) -> (r: (usize, usize, usize))
    ensures
        (r.0 as int, r.1 as int, r.2 as int) == weight_prefix(chars@),
        r.2 <= chars@.len(),
        r.2 > 0 ==> r.0 > 0 && r.0 <= r.1 < r.2 && forall|k: int| 0 <= k < r.0 ==> is_digit(#[trigger] chars@[k]),
        r.2 > 0 && r.1 > r.0 ==> forall|k: int| r.0 + 1 <= k < r.1 ==> is_digit(#[trigger] chars@[k]),
{
    let d = scan(chars, 0, CharClass::Digit);
    proof {
        lemma_run_end_bounds(chars@, 0, CharClass::Digit);
    }
    if d == 0 || d >= chars.len() {
        (0, 0, 0)
    } else if chars[d] == '%' {
        (d, d, d + 1)
    } else if chars[d] == '.' {
        let f = scan(chars, d + 1, CharClass::Digit);
        proof {
            lemma_run_end_bounds(chars@, d + 1, CharClass::Digit);
        }
        if f > d + 1 && f < chars.len() && chars[f] == '%' {
            (d, f, f + 1)
        } else {
            (0, 0, 0)
        }
    } else {
        (0, 0, 0)
    }
}

fn weight_value_exec(chars: &Vec<char>, d: usize, f: usize, rest: usize) -> (r: u64)
    requires
        (d as int, f as int, rest as int) == weight_prefix(chars@),
        rest <= chars@.len(),
        rest > 0 ==> d > 0 && d <= f < rest && forall|k: int| 0 <= k < d ==> is_digit(#[trigger] chars@[k]),
        rest > 0 && f > d ==> forall|k: int| d + 1 <= k < f ==> is_digit(#[trigger] chars@[k]),
    ensures
        r == weight_value(chars@, d as int, f as int, rest as int),
{
    if rest == 0 {
        return FULL_WEIGHT;
    }
    let whole = digits_saturating(chars, 0, d);
    let m: usize = if f <= d {
        0
    } else if f - (d + 1) > 4 {
        4
    } else {
        f - (d + 1)
    };
    proof {
        if m > 0 {
            lemma_digits_below_pow(chars@, d + 1, d + 1 + m);
        }
    }
    let frac_digits = if m == 0 {
        0
    } else {
        digits_saturating(chars, d + 1, d + 1 + m)
    };
    let scale = pow10_exec((4 - m) as u32);
    proof {
        reveal_with_fuel(pow10, 5);
        assert(pow10(m as nat) <= 10000);
        assert(frac_digits < 10000);
        assert(frac_digits as int * scale as int <= 100000000) by (nonlinear_arith)
            requires
                frac_digits < 10000,
                scale <= 10000,
        ;
    }
    let frac = frac_digits * scale;
    let ghost exact = digits_value(chars@, 0, d as int) * 10000 + frac;
    if whole > (u64::MAX - frac) / 10000 {
        proof {
            assert(digits_value(chars@, 0, d as int) >= whole);
        }
        u64::MAX
    } else {
        whole * 10000 + frac
    }
}

pub fn has_minecraft_prefix(chars: &Vec<char>, t: usize) -> (r: bool)
    ensures
        r == (t + 10 <= chars@.len() && chars@.subrange(t as int, t + 10) == minecraft_prefix()),
{
    if t > chars.len() || chars.len() - t < 10 {
        return false;
    }
    let r = chars[t] == 'm' && chars[t + 1] == 'i' && chars[t + 2] == 'n' && chars[t + 3] == 'e'
        && chars[t + 4] == 'c' && chars[t + 5] == 'r' && chars[t + 6] == 'a' && chars[t + 7] == 'f'
        && chars[t + 8] == 't' && chars[t + 9] == ':';
    proof {
        let sub = chars@.subrange(t as int, t + 10);
        if r {
            assert(sub =~= minecraft_prefix());
        } else {
            if sub == minecraft_prefix() {
                assert(sub[0] == 'm' && sub[1] == 'i' && sub[2] == 'n' && sub[3] == 'e' && sub[4] == 'c');
                assert(sub[5] == 'r' && sub[6] == 'a' && sub[7] == 'f' && sub[8] == 't' && sub[9] == ':');
            }
        }
    }
    r
}

fn token_span_exec(chars: &Vec<char>, t: usize, eq: bool) -> (r: Option<(usize, usize)>)
    requires
        t <= chars@.len(),
    ensures
        match r {
            Some(sp) => token_span(chars@, t as int, eq) == Some((sp.0 as int, sp.1 as int)) && sp.0 <= sp.1 <= chars@.len()
                && (eq ==> forall|k: int| sp.0 <= k < sp.1 ==> is_digit(#[trigger] chars@[k])),
            None => token_span(chars@, t as int, eq).is_none(),
        },
{
    if eq {
        let e = scan(chars, t, CharClass::Digit);
        proof {
            lemma_run_end_bounds(chars@, t as int, CharClass::Digit);
        }
        if e > t {
            Some((t, e))
        } else {
            None
        }
    } else if t < chars.len() && '0' <= chars[t] && chars[t] <= '9' {
        Some((t, scan(chars, t, CharClass::Digit)))
    } else if t < chars.len() && chars.len() - t > 10 && has_minecraft_prefix(chars, t) && (('a'
        <= chars[t + 10] && chars[t + 10] <= 'z') || ('A' <= chars[t + 10] && chars[t + 10] <= 'Z')
        || chars[t + 10] == '_') {
        Some((t + 10, scan(chars, t + 10, CharClass::Name)))
    } else {
        let e = scan(chars, t, CharClass::Name);
        if e > t {
            Some((t, e))
        } else {
            None
        }
    }
}

fn props_end_exec(chars: &Vec<char>, i: usize) -> (r: Option<usize>)
    requires
        i <= chars@.len(),
    ensures
        match r {
            Some(e) => props_end(chars@, i as int) == Some(e as int) && e <= chars@.len(),
            None => props_end(chars@, i as int).is_none(),
        },
{
    let mut pos = i;
    while pos < chars.len()
        invariant
            i <= pos <= chars@.len(),
            props_end(chars@, i as int) == props_end(chars@, pos as int),
        decreases chars.len() - pos,
    {
        let k = scan(chars, pos, CharClass::Name);
        if k == pos || k >= chars.len() || chars[k] != '=' {
            return None;
        }
        let v = scan(chars, k + 1, CharClass::Value);
        if v == k + 1 {
            return None;
        }
        let p = if v < chars.len() && chars[v] == ',' {
            v + 1
        } else {
            v
        };
        if p < chars.len() && chars[p] == ']' {
            return Some(p + 1);
        }
        pos = p;
    }
    None
}

fn suffix_end_exec(chars: &Vec<char>, te: usize) -> (r: Option<usize>)
    requires
        te <= chars@.len(),
    ensures
        match r {
            Some(e) => suffix_end(chars@, te as int) == Some(e as int) && e <= chars@.len(),
            None => suffix_end(chars@, te as int).is_none(),
        },
{
    if te < chars.len() && chars[te] == ':' {
        let v = scan(chars, te + 1, CharClass::Digit);
        if v > te + 1 {
            Some(v)
        } else {
            None
        }
    } else if te < chars.len() && chars[te] == '[' {
        props_end_exec(chars, te + 1)
    } else {
        Some(te)
    }
}

fn pipes_ok_exec(chars: &Vec<char>, i: usize) -> (r: bool)
    requires
        i <= chars@.len(),
    ensures
        r == pipes_ok(chars@, i as int, 0),
{
    let mut pos = i;
    let mut count: u32 = 0;
    while pos < chars.len()
        invariant
            i <= pos <= chars@.len(),
            count <= 4,
            pipes_ok(chars@, i as int, 0) == pipes_ok(chars@, pos as int, count as nat),
        decreases chars.len() - pos,
    {
        if chars[pos] != '|' || count >= 4 {
            return false;
        }
        pos = scan(chars, pos + 1, CharClass::NotPipe);
        count = count + 1;
    }
    true
}

/// Resolves one part, as `resolve_part` states.
pub fn parse_part(chars: &Vec<char>, registry: &BlockRegistry) -> (r: Result<WorldEditPatternPart, PartFailure>)
    ensures
        r == resolve_part(chars@, *registry),
{
    let (d, f, rest) = weight_prefix_exec(chars);
    let eq = rest < chars.len() && chars[rest] == '=';
    let t = if eq {
        rest + 1
    } else {
        rest
    };
    let span = match token_span_exec(chars, t, eq) {
        Some(sp) => sp,
        None => return Err(PartFailure::InvalidPattern),
    };
    let end = match suffix_end_exec(chars, span.1) {
        Some(e) => e,
        None => return Err(PartFailure::InvalidPattern),
    };
    if !pipes_ok_exec(chars, end) {
        return Err(PartFailure::InvalidPattern);
    }
    let weight = weight_value_exec(chars, d, f, rest);
    if eq {
        let v = digits_saturating(chars, span.0, span.1);
        if v > u32::MAX as u64 {
            Err(PartFailure::InvalidPattern)
        } else {
            Ok(WorldEditPatternPart { weight, block_id: v as u32 })
        }
    } else {
        match registry.from_name(chars, span.0, span.1) {
            Some(id) => Ok(WorldEditPatternPart { weight, block_id: id }),
            None => Err(PartFailure::UnknownBlock),
        }
    }
}

/// The characters of `s`, in order.
pub fn to_chars(s: &str) -> (r: Vec<char>)
    ensures
        r@ == s@,
{
    let n = s.unicode_len();
    let mut out: Vec<char> = Vec::new();
    let mut i: usize = 0;
    while i < n
        invariant
            n == s@.len(),
            i <= n,
            out@ == s@.subrange(0, i as int),
        decreases n - i,
    {
        out.push(s.get_char(i));
        i = i + 1;
        proof {
            assert(out@ =~= s@.subrange(0, i as int));
        }
    }
    proof {
        assert(out@ =~= s@);
    }
    out
}

/// The characters `chars[lo..hi]` as a vector of their own.
pub fn copy_range(chars: &Vec<char>, lo: usize, hi: usize) -> (r: Vec<char>)
    requires
        lo <= hi <= chars@.len(),
    ensures
        r@ == chars@.subrange(lo as int, hi as int),
{
    let mut out: Vec<char> = Vec::new();
    let mut i = lo;
    while i < hi
        invariant
            lo <= i <= hi <= chars@.len(),
            out@ == chars@.subrange(lo as int, i as int),
        decreases hi - i,
    {
        out.push(chars[i]);
        i = i + 1;
        proof {
            assert(out@ =~= chars@.subrange(lo as int, i as int));
        }
    }
    out
}

/// The sum of the weights of the first `i` parts.
pub open spec fn weight_prefix_sum(parts: Seq<WorldEditPatternPart>, i: int) -> int
    decreases i,
{
    if i <= 0 {
        0
    } else {
        weight_prefix_sum(parts, i - 1) + parts[i - 1].weight
    }
}

pub open spec fn total_weight(parts: Seq<WorldEditPatternPart>) -> int {
    weight_prefix_sum(parts, parts.len() as int)
}

/// The part that a draw `r` in `1..=total` selects, searching from `i`: the
/// first whose running weight reaches `r`. Where none does (a zero total),
/// the first part.
pub open spec fn pick_index_from(parts: Seq<WorldEditPatternPart>, r: int, i: int) -> int
    decreases parts.len() - i,
{
    if i < 0 || i >= parts.len() {
        0
    } else if r <= weight_prefix_sum(parts, i + 1) {
        i
    } else {
        pick_index_from(parts, r, i + 1)
    }
}

pub open spec fn pick_index(parts: Seq<WorldEditPatternPart>, r: int) -> int {
    pick_index_from(parts, r, 0)
}

pub proof fn lemma_prefix_sum_bounds(parts: Seq<WorldEditPatternPart>, i: int)
    requires
        0 <= i <= parts.len(),
    ensures
        0 <= weight_prefix_sum(parts, i) <= i * u64::MAX,
    decreases i,
{
    if i > 0 {
        lemma_prefix_sum_bounds(parts, i - 1);
    }
}

pub proof fn lemma_pick_index_in_range(parts: Seq<WorldEditPatternPart>, r: int, i: int)
    requires
        0 <= i,
    ensures
        parts.len() > 0 ==> 0 <= pick_index_from(parts, r, i) < parts.len(),
    decreases parts.len() - i,
{
    if i < parts.len() {
        lemma_pick_index_in_range(parts, r, i + 1);
    }
}

pub proof fn lemma_prefix_sum_monotone(parts: Seq<WorldEditPatternPart>, i: int, j: int)
    requires
        0 <= i <= j <= parts.len(),
    ensures
        weight_prefix_sum(parts, i) <= weight_prefix_sum(parts, j),
    decreases j - i,
{
    if i < j {
        lemma_prefix_sum_monotone(parts, i, j - 1);
    }
}

/// Each part owns exactly the draws between the running weight before it and
/// the running weight after it: of the `total` equally likely draws in
/// `1..=total`, part `i` is picked for exactly `weight` of them.
pub proof fn lemma_pick_share(parts: Seq<WorldEditPatternPart>, i: int, r: int)
    requires
        0 <= i < parts.len(),
        weight_prefix_sum(parts, i) < r <= weight_prefix_sum(parts, i + 1),
    ensures
        pick_index(parts, r) == i,
{
    assert forall|j: int| 0 <= j < i implies !(r <= #[trigger] weight_prefix_sum(parts, j + 1)) by {
        lemma_prefix_sum_monotone(parts, j + 1, i);
    }
    lemma_pick_from(parts, r, 0, i);
}

proof fn lemma_pick_from(parts: Seq<WorldEditPatternPart>, r: int, k: int, i: int)
    requires
        0 <= k <= i < parts.len(),
        r <= weight_prefix_sum(parts, i + 1),
        forall|j: int| k <= j < i ==> !(r <= #[trigger] weight_prefix_sum(parts, j + 1)),
    ensures
        pick_index_from(parts, r, k) == i,
    decreases i - k,
{
    if k < i {
        lemma_pick_from(parts, r, k + 1, i);
    }
}

/// Relies on `rand::Rng::gen_range` over `rand::thread_rng()`: a value drawn
/// from `0..bound`.
#[verifier::external_body]
fn random_below(bound: u128) -> (r: u128)
    requires
        bound > 0,
    ensures
        r < bound,
{
    rand::thread_rng().gen_range(0..bound)
}

/// Whether part `i` is the first of `parts` that fails to resolve.
pub open spec fn first_failure(parts: Seq<Seq<char>>, reg: BlockRegistry, i: int) -> bool {
    &&& 0 <= i < parts.len()
    &&& forall|j: int| 0 <= j < i ==> (#[trigger] resolve_part(parts[j], reg)) is Ok
    &&& !(resolve_part(parts[i], reg) is Ok)
}

/// Whether `e` reports how part `s` fails, with the part's text.
pub open spec fn error_describes(e: PatternParseError, s: Seq<char>, reg: BlockRegistry) -> bool {
    match e {
        PatternParseError::UnknownBlock(t) => resolve_part(s, reg) == Err::<WorldEditPatternPart, PartFailure>(
            PartFailure::UnknownBlock,
        ) && t@ == s,
        PatternParseError::InvalidPattern(t) => resolve_part(s, reg) == Err::<
            WorldEditPatternPart,
            PartFailure,
        >(PartFailure::InvalidPattern) && t@ == s,
    }
}

/// Whether `parts` is what the pattern text `s` parses to: one resolved part
/// for each comma-separated piece.
pub open spec fn pattern_parsed(s: Seq<char>, reg: BlockRegistry, parts: Seq<WorldEditPatternPart>) -> bool {
    &&& parts.len() > 0
    &&& parts.len() == split_commas(s).len()
    &&& forall|i: int|
        0 <= i < parts.len() ==> resolve_part(#[trigger] split_commas(s)[i], reg) == Ok::<
            WorldEditPatternPart,
            PartFailure,
        >(parts[i])
}

/// Whether `e` is the error the pattern text `s` is rejected with: that of
/// its first piece that fails.
pub open spec fn pattern_rejected(s: Seq<char>, reg: BlockRegistry, e: PatternParseError) -> bool {
    exists|i: int| #[trigger] first_failure(split_commas(s), reg, i) && error_describes(e, split_commas(s)[i], reg)
}

/// A weighted block distribution: a list of parts, at least one.
pub struct WorldEditPattern {
    pub parts: Vec<WorldEditPatternPart>,
}

impl WorldEditPattern {
    pub open spec fn wf(&self) -> bool {
        self.parts@.len() > 0
    }

    /// Parses a comma-separated pattern. Each part resolves as
    /// `resolve_part` says; the first part that fails decides the error,
    /// which carries that part's text.
    pub fn from_str(pattern_str: &str, registry: &BlockRegistry) -> (r: Result<WorldEditPattern, PatternParseError>)
        ensures
            match r {
                Ok(p) => pattern_parsed(pattern_str@, *registry, p.parts@),
                Err(e) => pattern_rejected(pattern_str@, *registry, e),
            },
            r is Ok <==> forall|i: int|
                0 <= i < split_commas(pattern_str@).len() ==> (#[trigger] resolve_part(split_commas(pattern_str@)[i], *registry)) is Ok,
    {
        let chars = to_chars(pattern_str);
        let ghost all = split_commas(chars@);
        let mut parts: Vec<WorldEditPatternPart> = Vec::new();
        let mut start: usize = 0;
        let ghost mut done: Seq<Seq<char>> = Seq::empty();
        proof {
            assert(chars@.subrange(0, chars@.len() as int) =~= chars@);
            assert(all =~= done + split_commas(chars@.subrange(0, chars@.len() as int)));
        }
        loop
            invariant_except_break
                all == done + split_commas(chars@.subrange(start as int, chars@.len() as int)),
            invariant
                chars@ == pattern_str@,
                all == split_commas(chars@),
                start <= chars@.len(),
                parts@.len() == done.len(),
                forall|i: int| 0 <= i < done.len() ==> resolve_part(#[trigger] done[i], *registry)
                    == Ok::<WorldEditPatternPart, PartFailure>(parts@[i]),
            ensures
                all == done,
            decreases chars@.len() - start,
        {
            let ghost rest = chars@.subrange(start as int, chars@.len() as int);
            let c = scan(&chars, start, CharClass::NotComma);
            proof {
                lemma_run_end_bounds(chars@, start as int, CharClass::NotComma);
                lemma_run_end(rest, 0, c - start, CharClass::NotComma);
                assert forall|k: int| 0 <= k < c - start implies in_class(CharClass::NotComma, #[trigger] rest[k]) by {
                    assert(rest[k] == chars@[start + k]);
                }
                if c < chars@.len() {
                    assert(rest[c - start] == chars@[c as int]);
                }
                lemma_run_end(rest, 0, c - start, CharClass::NotComma);
            }
            let piece = copy_range(&chars, start, c);
            proof {
                assert(piece@ =~= rest.subrange(0, c - start));
                if c >= chars@.len() {
                    assert(rest.subrange(0, c - start) =~= rest);
                    assert(split_commas(rest) == seq![rest]);
                } else {
                    assert(rest.subrange(c - start + 1, rest.len() as int) =~= chars@.subrange(c + 1, chars@.len() as int));
                }
            }
            match parse_part(&piece, registry) {
                Ok(part) => {
                    parts.push(part);
                    proof {
                        done = done.push(piece@);
                        if c < chars@.len() {
                            assert(all =~= done + split_commas(chars@.subrange(c + 1, chars@.len() as int)));
                        } else {
                            assert(all =~= done);
                        }
                    }
                },
                Err(failure) => {
                    let text = pattern_str.substring_char(start, c).to_owned();
                    proof {
                        let i = done.len() as int;
                        assert(all[i] == piece@);
                        assert(forall|j: int| 0 <= j < i ==> all[j] == done[j]);
                        assert(forall|j: int| 0 <= j < i ==> (#[trigger] resolve_part(all[j], *registry)) is Ok);
                        assert(!(resolve_part(all[i], *registry) is Ok));
                        assert(first_failure(all, *registry, i));
                    }
                    return match failure {
                        PartFailure::UnknownBlock => Err(PatternParseError::UnknownBlock(text)),
                        PartFailure::InvalidPattern => Err(PatternParseError::InvalidPattern(text)),
                    };
                },
            }
            if c >= chars.len() {
                break;
            }
            start = c + 1;
        }
        proof {
            assert(done == all);
        }
        Ok(WorldEditPattern { parts })
    }

    /// Whether some part is the block `block_id` (weights play no role).
    pub fn matches(&self, block_id: u32) -> (r: bool)
        ensures
            r == exists|i: int| 0 <= i < self.parts@.len() && (#[trigger] self.parts@[i]).block_id == block_id,
    {
        let mut i: usize = 0;
        while i < self.parts.len()
            invariant
                i <= self.parts@.len(),
                forall|j: int| 0 <= j < i ==> (#[trigger] self.parts@[j]).block_id != block_id,
            decreases self.parts.len() - i,
        {
            if self.parts[i].block_id == block_id {
                return true;
            }
            i = i + 1;
        }
        false
    }

    /// The sum of all weights.
    pub fn total_weight(&self) -> (r: u128)
        ensures
            r == total_weight(self.parts@),
    {
        let mut sum: u128 = 0;
        let mut i: usize = 0;
        while i < self.parts.len()
            invariant
                i <= self.parts@.len(),
                sum == weight_prefix_sum(self.parts@, i as int),
            decreases self.parts.len() - i,
        {
            proof {
                lemma_prefix_sum_bounds(self.parts@, i + 1);
                assert((i + 1) * u64::MAX <= u128::MAX) by (nonlinear_arith)
                    requires i + 1 <= usize::MAX;
            }
            sum = sum + self.parts[i].weight as u128;
            i = i + 1;
        }
        sum
    }

    /// The block that a draw `r` (in `1..=total`) selects: the first part
    /// whose running weight reaches `r`; the first part when none does.
    pub fn pick_with(&self, r: u128) -> (id: u32)
        requires
            self.wf(),
        ensures
            id == self.parts@[pick_index(self.parts@, r as int)].block_id,
    {
        let mut sum: u128 = 0;
        let mut i: usize = 0;
        proof {
            lemma_pick_index_in_range(self.parts@, r as int, 0);
        }
        while i < self.parts.len()
            invariant
                self.wf(),
                i <= self.parts@.len(),
                sum == weight_prefix_sum(self.parts@, i as int),
                pick_index(self.parts@, r as int) == pick_index_from(self.parts@, r as int, i as int),
            decreases self.parts.len() - i,
        {
            proof {
                lemma_prefix_sum_bounds(self.parts@, i + 1);
                assert((i + 1) * u64::MAX <= u128::MAX) by (nonlinear_arith)
                    requires i + 1 <= usize::MAX;
            }
            sum = sum + self.parts[i].weight as u128;
            if r <= sum {
                return self.parts[i].block_id;
            }
            i = i + 1;
        }
        self.parts[0].block_id
    }

    /// Draws a block at random, each part with a chance proportional to its
    /// weight; the first part when all weights are zero.
    pub fn pick(&self) -> (id: u32)
        requires
            self.wf(),
        ensures
            total_weight(self.parts@) == 0 ==> id == self.parts@[0].block_id,
            total_weight(self.parts@) > 0 ==> exists|r: int|
                1 <= r <= total_weight(self.parts@) && id == self.parts@[pick_index(self.parts@, r)].block_id,
            exists|i: int| 0 <= i < self.parts@.len() && id == (#[trigger] self.parts@[i]).block_id,
    {
        let total = self.total_weight();
        proof {
            lemma_pick_index_in_range(self.parts@, 0, 0);
        }
        if total == 0 {
            return self.parts[0].block_id;
        }
        let r = random_below(total) + 1;
        proof {
            lemma_pick_index_in_range(self.parts@, r as int, 0);
        }
        self.pick_with(r)
    }
}

} // verus!

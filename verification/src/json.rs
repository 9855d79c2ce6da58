//! Parsing of the control channel's record documents.
//!
//! The control socket answers the workspace and client queries with
//! documents in a bracketed, quoted record notation.  This module parses
//! the three document shapes the reconcilers consume — a workspace record,
//! a list of workspace records, and a list of client records — extracting
//! the fields the logic reads (`id`, `name`, `workspace`, `hidden`,
//! `floating`) and skipping every other member generically, whatever its
//! shape.  A document that does not follow the grammar is rejected as a
//! whole: a failed parse abandons the reconciliation step, it never stops
//! the loop.
//!
//! The grammar is stated by the `spec` functions; each parser's contract
//! says it returns exactly what the grammar assigns to its input.  The
//! recursive skipping functions carry an explicit fuel, in both the
//! specification and the code; the public entry points supply one more
//! unit than the document's length, which no chain of nested values can
//! exhaust, since every recursion step consumes input.

use vstd::prelude::*;
use crate::events::dec_val;
use crate::events::all_digits;
use crate::events::is_digit;
use crate::model::Client;
use crate::model::WorkspaceInfo;

verus! {

/// Blank bytes between tokens: space, tab, line feed, carriage return.
pub open spec fn is_blank(b: u8) -> bool {
    b == 32 || b == 9 || b == 10 || b == 13
}

/// First position at or after `i` holding a non-blank byte (or the end).
pub open spec fn spec_skip_blanks(s: Seq<u8>, i: int) -> int
    decreases s.len() - i,
{
    if 0 <= i < s.len() && is_blank(s[i]) {
        spec_skip_blanks(s, i + 1)
    } else {
        i
    }
}

pub proof fn lemma_skip_blanks_bounds(s: Seq<u8>, i: int)
    requires
        0 <= i <= s.len(),
    ensures
        i <= spec_skip_blanks(s, i) <= s.len(),
    decreases s.len() - i,
{
    if 0 <= i < s.len() && is_blank(s[i]) {
        lemma_skip_blanks_bounds(s, i + 1);
    }
}

fn skip_blanks(s: &Vec<u8>, i: usize) -> (j: usize)
    requires
        i <= s@.len(),
    ensures
        j as int == spec_skip_blanks(s@, i as int),
        i <= j <= s@.len(),
{
    let mut j = i;
    while j < s.len() && (s[j] == 32 || s[j] == 9 || s[j] == 10 || s[j] == 13)
        invariant
            i <= j <= s@.len(),
            spec_skip_blanks(s@, i as int) == spec_skip_blanks(s@, j as int),
        decreases s@.len() - j,
    {
        j = j + 1;
    }
    j
}

/// First position at or after `i` holding a non-digit byte (or the end).
pub open spec fn spec_digits_end(s: Seq<u8>, i: int) -> int
    decreases s.len() - i,
{
    if 0 <= i < s.len() && is_digit(s[i]) {
        spec_digits_end(s, i + 1)
    } else {
        i
    }
}

pub proof fn lemma_digits_end_bounds(s: Seq<u8>, i: int)
    requires
        0 <= i <= s.len(),
    ensures
        i <= spec_digits_end(s, i) <= s.len(),
        all_digits(s.subrange(i, spec_digits_end(s, i))),
    decreases s.len() - i,
{
    let e = spec_digits_end(s, i);
    if 0 <= i < s.len() && is_digit(s[i]) {
        lemma_digits_end_bounds(s, i + 1);
        assert forall|k: int| 0 <= k < s.subrange(i, e).len() implies is_digit(
            #[trigger] s.subrange(i, e)[k],
        ) by {
            if k == 0 {
            } else {
                assert(s.subrange(i + 1, e)[k - 1] == s.subrange(i, e)[k]);
            }
        }
    } else {
        assert(s.subrange(i, e).len() == 0);
    }
}

fn digits_end(s: &Vec<u8>, i: usize) -> (j: usize)
    requires
        i <= s@.len(),
    ensures
        j as int == spec_digits_end(s@, i as int),
        i <= j <= s@.len(),
{
    let mut j = i;
    while j < s.len() && 48 <= s[j] && s[j] <= 57
        invariant
            i <= j <= s@.len(),
            spec_digits_end(s@, i as int) == spec_digits_end(s@, j as int),
        decreases s@.len() - j,
    {
        j = j + 1;
    }
    j
}

/// The byte an escape pair `\x` denotes, for the escapes the grammar
/// accepts; unicode escapes are not among them.
pub open spec fn spec_escape(e: u8) -> Option<u8> {
    if e == '"' as u8 {
        Some('"' as u8)
    } else if e == '\\' as u8 {
        Some('\\' as u8)
    } else if e == '/' as u8 {
        Some('/' as u8)
    } else if e == 'n' as u8 {
        Some(10u8)
    } else if e == 't' as u8 {
        Some(9u8)
    } else if e == 'r' as u8 {
        Some(13u8)
    } else if e == 'b' as u8 {
        Some(8u8)
    } else if e == 'f' as u8 {
        Some(12u8)
    } else {
        None
    }
}

/// The content and end of a quoted string whose opening quote stands just
/// before `i`: the decoded bytes up to the closing quote, and the position
/// after it.  Control bytes and unknown escapes reject the string.
pub open spec fn spec_str_tail(s: Seq<u8>, i: int) -> Option<(Seq<u8>, int)>
    decreases s.len() - i,
{
    if i < 0 || i >= s.len() {
        None
    } else if s[i] == '"' as u8 {
        Some((Seq::empty(), i + 1))
    } else if s[i] == '\\' as u8 {
        if i + 1 >= s.len() {
            None
        } else {
            match spec_escape(s[i + 1]) {
                Some(d) => match spec_str_tail(s, i + 2) {
                    Some(t) => Some((seq![d] + t.0, t.1)),
                    None => None,
                },
                None => None,
            }
        }
    } else if s[i] < 0x20 {
        None
    } else {
        match spec_str_tail(s, i + 1) {
            Some(t) => Some((seq![s[i]] + t.0, t.1)),
            None => None,
        }
    }
}

pub proof fn lemma_str_tail_bounds(s: Seq<u8>, i: int)
    ensures
        spec_str_tail(s, i) matches Some(t) ==> i < t.1 <= s.len(),
    decreases s.len() - i,
{
    if 0 <= i < s.len() {
        if s[i] == '"' as u8 {
        } else if s[i] == '\\' as u8 {
            if i + 1 < s.len() {
                lemma_str_tail_bounds(s, i + 2);
            }
        } else {
            lemma_str_tail_bounds(s, i + 1);
        }
    }
}

/// Exec scan for [`spec_str_tail`].
fn str_tail(s: &Vec<u8>, i: usize) -> (r: Option<(Vec<u8>, usize)>)
    requires
        i <= s@.len(),
    ensures
        match r {
            Some(t) => spec_str_tail(s@, i as int) == Some((t.0@, t.1 as int)) && i < t.1
                <= s@.len(),
            None => spec_str_tail(s@, i as int) is None,
        },
{
    proof {
        lemma_str_tail_bounds(s@, i as int);
    }
    let mut out: Vec<u8> = Vec::new();
    let mut j = i;
    loop
        invariant
            i <= j <= s@.len(),
            match spec_str_tail(s@, j as int) {
                Some(t) => spec_str_tail(s@, i as int) == Some((out@ + t.0, t.1)),
                None => spec_str_tail(s@, i as int) is None,
            },
        decreases s@.len() - j,
    {
        if j >= s.len() {
            return None;
        }
        let b = s[j];
        if b == '"' as u8 {
            proof {
                assert(out@ + Seq::<u8>::empty() =~= out@);
            }
            return Some((out, j + 1));
        }
        if b == '\\' as u8 {
            if j + 1 >= s.len() {
                return None;
            }
            let e = s[j + 1];
            let d: u8;
            if e == '"' as u8 {
                d = '"' as u8;
            } else if e == '\\' as u8 {
                d = '\\' as u8;
            } else if e == '/' as u8 {
                d = '/' as u8;
            } else if e == 'n' as u8 {
                d = 10;
            } else if e == 't' as u8 {
                d = 9;
            } else if e == 'r' as u8 {
                d = 13;
            } else if e == 'b' as u8 {
                d = 8;
            } else if e == 'f' as u8 {
                d = 12;
            } else {
                return None;
            }
            let ghost old_out = out@;
            out.push(d);
            proof {
                lemma_str_tail_bounds(s@, j + 2);
                if spec_str_tail(s@, j + 2) is Some {
                    let t = spec_str_tail(s@, j + 2)->Some_0;
                    assert(old_out + (seq![d] + t.0) =~= out@ + t.0);
                }
            }
            j = j + 2;
        } else if b < 0x20 {
            return None;
        } else {
            let ghost old_out = out@;
            out.push(b);
            proof {
                lemma_str_tail_bounds(s@, j + 1);
                if spec_str_tail(s@, j + 1) is Some {
                    let t = spec_str_tail(s@, j + 1)->Some_0;
                    assert(old_out + (seq![b] + t.0) =~= out@ + t.0);
                }
            }
            j = j + 1;
        }
    }
}

pub open spec fn pow10(n: nat) -> int
    decreases n,
{
    if n == 0 {
        1
    } else {
        10 * pow10((n - 1) as nat)
    }
}

proof fn lemma_pow10_le(a: nat, b: nat)
    requires
        a <= b,
    ensures
        1 <= pow10(a) <= pow10(b),
    decreases b,
{
    if b == 0 {
    } else if a == b {
        lemma_pow10_le(0, (b - 1) as nat);
    } else {
        lemma_pow10_le(a, (b - 1) as nat);
    }
}

proof fn lemma_dec_val_bound(s: Seq<u8>)
    requires
        all_digits(s),
    ensures
        0 <= dec_val(s) < pow10(s.len()),
    decreases s.len(),
{
    if s.len() > 0 {
        assert(all_digits(s.drop_last()));
        lemma_dec_val_bound(s.drop_last());
    }
}

/// The value and end of an integer standing at `i`: an optional `-`
/// followed by one to ten digits, not continued by a fraction or an
/// exponent.  Anything else — including an overlong digit run, which could
/// not denote a workspace id anyway — is rejected.
pub open spec fn spec_int_tail(s: Seq<u8>, i: int) -> Option<(int, int)> {
    let neg = 0 <= i < s.len() && s[i] == '-' as u8;
    let d0 = if neg {
        i + 1
    } else {
        i
    };
    let e = spec_digits_end(s, d0);
    if e == d0 || e - d0 > 10 {
        None
    } else if e < s.len() && (s[e] == '.' as u8 || s[e] == 'e' as u8 || s[e] == 'E' as u8) {
        None
    } else {
        let v = dec_val(s.subrange(d0, e));
        Some((if neg {
            -v
        } else {
            v
        }, e))
    }
}

/// Exec scan for [`spec_int_tail`].
fn int_tail(s: &Vec<u8>, i: usize) -> (r: Option<(i64, usize)>)
    requires
        i <= s@.len(),
    ensures
        match r {
            Some(t) => spec_int_tail(s@, i as int) == Some((t.0 as int, t.1 as int)) && i < t.1
                <= s@.len(),
            None => spec_int_tail(s@, i as int) is None,
        },
{
    let neg = i < s.len() && s[i] == '-' as u8;
    let d0: usize = if neg {
        i + 1
    } else {
        i
    };
    let e = digits_end(s, d0);
    if e == d0 || e - d0 > 10 {
        return None;
    }
    if e < s.len() && (s[e] == '.' as u8 || s[e] == 'e' as u8 || s[e] == 'E' as u8) {
        return None;
    }
    proof {
        lemma_digits_end_bounds(s@, d0 as int);
        lemma_pow10_le(0, 10);
        assert(pow10(10) == 10_000_000_000) by {
            reveal_with_fuel(pow10, 11);
        }
    }
    let mut acc: u64 = 0;
    let mut k: usize = d0;
    while k < e
        invariant
            d0 <= k <= e <= s@.len(),
            e - d0 <= 10,
            all_digits(s@.subrange(d0 as int, e as int)),
            acc as int == dec_val(s@.subrange(d0 as int, k as int)),
            (acc as int) < pow10((k - d0) as nat),
            pow10(10) == 10_000_000_000,
        decreases e - k,
    {
        let b = s[k];
        proof {
            assert(s@.subrange(d0 as int, e as int)[k - d0] == s@[k as int]);
            assert(s@.subrange(d0 as int, k + 1).drop_last() =~= s@.subrange(d0 as int, k as int));
            assert(s@.subrange(d0 as int, k + 1).last() == s@[k as int]);
            lemma_pow10_le((k - d0 + 1) as nat, 10);
        }
        acc = acc * 10 + ((b - 48) as u64);
        k = k + 1;
    }
    proof {
        lemma_pow10_le((e - d0) as nat, 10);
    }
    if neg {
        Some((-(acc as i64), e))
    } else {
        Some((acc as i64, e))
    }
}

/// End of the fraction part standing at `i`, if the grammar allows what
/// stands there (a `.` must be followed by at least one digit; no `.`
/// passes `i` through).
pub open spec fn spec_frac_end(s: Seq<u8>, i: int) -> Option<int> {
    if 0 <= i < s.len() && s[i] == '.' as u8 {
        let f = spec_digits_end(s, i + 1);
        if f == i + 1 {
            None
        } else {
            Some(f)
        }
    } else {
        Some(i)
    }
}

/// End of the exponent part standing at `i`, if the grammar allows what
/// stands there.
pub open spec fn spec_exp_end(s: Seq<u8>, i: int) -> Option<int> {
    if 0 <= i < s.len() && (s[i] == 'e' as u8 || s[i] == 'E' as u8) {
        let x0 = if i + 1 < s.len() && (s[i + 1] == '+' as u8 || s[i + 1] == '-' as u8) {
            i + 2
        } else {
            i + 1
        };
        let g = spec_digits_end(s, x0);
        if g == x0 {
            None
        } else {
            Some(g)
        }
    } else {
        Some(i)
    }
}

/// End of a number standing at `i`: optional sign, digits, optional
/// fraction, optional exponent.  Used to skip numeric members the logic
/// does not read.
pub open spec fn spec_num_end(s: Seq<u8>, i: int) -> Option<int> {
    let d0 = if 0 <= i < s.len() && s[i] == '-' as u8 {
        i + 1
    } else {
        i
    };
    let e1 = spec_digits_end(s, d0);
    if e1 == d0 {
        None
    } else {
        match spec_frac_end(s, e1) {
            None => None,
            Some(e2) => spec_exp_end(s, e2),
        }
    }
}

pub proof fn lemma_num_end_bounds(s: Seq<u8>, i: int)
    requires
        0 <= i <= s.len(),
    ensures
        spec_num_end(s, i) matches Some(j) ==> i < j <= s.len(),
{
    let d0 = if 0 <= i < s.len() && s[i] == '-' as u8 {
        i + 1
    } else {
        i
    };
    if d0 <= s.len() {
        lemma_digits_end_bounds(s, d0);
        let e1 = spec_digits_end(s, d0);
        if e1 != d0 {
            if 0 <= e1 < s.len() && s[e1] == '.' as u8 {
                lemma_digits_end_bounds(s, e1 + 1);
            }
            match spec_frac_end(s, e1) {
                None => {},
                Some(e2) => {
                    if 0 <= e2 < s.len() && (s[e2] == 'e' as u8 || s[e2] == 'E' as u8) {
                        let x0 = if e2 + 1 < s.len() && (s[e2 + 1] == '+' as u8 || s[e2 + 1]
                            == '-' as u8) {
                            e2 + 2
                        } else {
                            e2 + 1
                        };
                        lemma_digits_end_bounds(s, x0);
                    }
                },
            }
        }
    }
}

/// Exec scan for [`spec_num_end`].
fn num_end(s: &Vec<u8>, i: usize) -> (r: Option<usize>)
    requires
        i <= s@.len(),
    ensures
        match r {
            Some(j) => spec_num_end(s@, i as int) == Some(j as int) && i < j <= s@.len(),
            None => spec_num_end(s@, i as int) is None,
        },
{
    proof {
        lemma_num_end_bounds(s@, i as int);
    }
    let d0: usize = if i < s.len() && s[i] == '-' as u8 {
        i + 1
    } else {
        i
    };
    let e1 = digits_end(s, d0);
    if e1 == d0 {
        return None;
    }
    let e2: usize;
    if e1 < s.len() && s[e1] == '.' as u8 {
        let f = digits_end(s, e1 + 1);
        if f == e1 + 1 {
            return None;
        }
        e2 = f;
    } else {
        e2 = e1;
    }
    if e2 < s.len() && (s[e2] == 'e' as u8 || s[e2] == 'E' as u8) {
        let x0: usize = if e2 + 1 < s.len() && (s[e2 + 1] == '+' as u8 || s[e2 + 1] == '-' as u8) {
            e2 + 2
        } else {
            e2 + 1
        };
        let g = digits_end(s, x0);
        if g == x0 {
            return None;
        }
        Some(g)
    } else {
        Some(e2)
    }
}

pub open spec fn lit_true() -> Seq<u8> {
    seq!['t' as u8, 'r' as u8, 'u' as u8, 'e' as u8]
}

pub open spec fn lit_false() -> Seq<u8> {
    seq!['f' as u8, 'a' as u8, 'l' as u8, 's' as u8, 'e' as u8]
}

pub open spec fn lit_null() -> Seq<u8> {
    seq!['n' as u8, 'u' as u8, 'l' as u8, 'l' as u8]
}

/// Whether the literal `lit` stands at position `i` of `s`.
pub open spec fn spec_lit_at(s: Seq<u8>, i: int, lit: Seq<u8>) -> bool {
    0 <= i && i + lit.len() <= s.len() && s.subrange(i, i + lit.len() as int) == lit
}

fn true_at(s: &Vec<u8>, i: usize) -> (r: bool)
    requires
        i <= s@.len(),
    ensures
        r == spec_lit_at(s@, i as int, lit_true()),
{
    let r = s.len() - i >= 4 && s[i] == 't' as u8 && s[i + 1] == 'r' as u8 && s[i + 2] == 'u' as u8
        && s[i + 3] == 'e' as u8;
    proof {
        if i + 4 <= s@.len() {
            let sub = s@.subrange(i as int, i + 4);
            assert(sub[0] == s@[i as int] && sub[1] == s@[i + 1] && sub[2] == s@[i + 2] && sub[3]
                == s@[i + 3]);
            if r {
                assert(sub =~= lit_true());
            }
        }
    }
    r
}

fn false_at(s: &Vec<u8>, i: usize) -> (r: bool)
    requires
        i <= s@.len(),
    ensures
        r == spec_lit_at(s@, i as int, lit_false()),
{
    let r = s.len() - i >= 5 && s[i] == 'f' as u8 && s[i + 1] == 'a' as u8 && s[i + 2] == 'l' as u8
        && s[i + 3] == 's' as u8 && s[i + 4] == 'e' as u8;
    proof {
        if i + 5 <= s@.len() {
            let sub = s@.subrange(i as int, i + 5);
            assert(sub[0] == s@[i as int] && sub[1] == s@[i + 1] && sub[2] == s@[i + 2] && sub[3]
                == s@[i + 3] && sub[4] == s@[i + 4]);
            if r {
                assert(sub =~= lit_false());
            }
        }
    }
    r
}

fn null_at(s: &Vec<u8>, i: usize) -> (r: bool)
    requires
        i <= s@.len(),
    ensures
        r == spec_lit_at(s@, i as int, lit_null()),
{
    let r = s.len() - i >= 4 && s[i] == 'n' as u8 && s[i + 1] == 'u' as u8 && s[i + 2] == 'l' as u8
        && s[i + 3] == 'l' as u8;
    proof {
        if i + 4 <= s@.len() {
            let sub = s@.subrange(i as int, i + 4);
            assert(sub[0] == s@[i as int] && sub[1] == s@[i + 1] && sub[2] == s@[i + 2] && sub[3]
                == s@[i + 3]);
            if r {
                assert(sub =~= lit_null());
            }
        }
    }
    r
}

/// End of whatever single value stands at `i`: a string, an object, an
/// array, one of the three literals, or a number.  `fuel` bounds the
/// recursion through nested containers; every step consumes input, so any
/// fuel beyond the remaining length behaves alike.
pub open spec fn spec_skip_value(s: Seq<u8>, i: int, fuel: nat) -> Option<int>
    decreases fuel,
{
    if fuel == 0 {
        None
    } else if i < 0 || i >= s.len() {
        None
    } else if s[i] == '"' as u8 {
        match spec_str_tail(s, i + 1) {
            Some(t) => Some(t.1),
            None => None,
        }
    } else if s[i] == '{' as u8 {
        spec_skip_members(s, spec_skip_blanks(s, i + 1), (fuel - 1) as nat, true)
    } else if s[i] == '[' as u8 {
        spec_skip_elems(s, spec_skip_blanks(s, i + 1), (fuel - 1) as nat, true)
    } else if spec_lit_at(s, i, lit_true()) {
        Some(i + 4)
    } else if spec_lit_at(s, i, lit_false()) {
        Some(i + 5)
    } else if spec_lit_at(s, i, lit_null()) {
        Some(i + 4)
    } else {
        spec_num_end(s, i)
    }
}

/// End of an element list whose opening bracket was consumed; `i` stands
/// on the first non-blank byte.  `first` distinguishes a closing bracket
/// that makes an empty list from one that ends it after an element.
pub open spec fn spec_skip_elems(s: Seq<u8>, i: int, fuel: nat, first: bool) -> Option<int>
    decreases fuel,
{
    if fuel == 0 {
        None
    } else if i < 0 || i >= s.len() {
        None
    } else if s[i] == ']' as u8 && first {
        Some(i + 1)
    } else {
        match spec_skip_value(s, i, (fuel - 1) as nat) {
            None => None,
            Some(j) => {
                let j2 = spec_skip_blanks(s, j);
                if j2 < s.len() && s[j2] == ',' as u8 {
                    spec_skip_elems(s, spec_skip_blanks(s, j2 + 1), (fuel - 1) as nat, false)
                } else if j2 < s.len() && s[j2] == ']' as u8 {
                    Some(j2 + 1)
                } else {
                    None
                }
            },
        }
    }
}

/// End of a member list whose opening brace was consumed; `i` stands on
/// the first non-blank byte.
pub open spec fn spec_skip_members(s: Seq<u8>, i: int, fuel: nat, first: bool) -> Option<int>
    decreases fuel,
{
    if fuel == 0 {
        None
    } else if i < 0 || i >= s.len() {
        None
    } else if s[i] == '}' as u8 && first {
        Some(i + 1)
    } else if s[i] != '"' as u8 {
        None
    } else {
        match spec_str_tail(s, i + 1) {
            None => None,
            Some(k) => {
                let j2 = spec_skip_blanks(s, k.1);
                if !(j2 < s.len() && s[j2] == ':' as u8) {
                    None
                } else {
                    match spec_skip_value(s, spec_skip_blanks(s, j2 + 1), (fuel - 1) as nat) {
                        None => None,
                        Some(j3) => {
                            let j4 = spec_skip_blanks(s, j3);
                            if j4 < s.len() && s[j4] == ',' as u8 {
                                spec_skip_members(
                                    s,
                                    spec_skip_blanks(s, j4 + 1),
                                    (fuel - 1) as nat,
                                    false,
                                )
                            } else if j4 < s.len() && s[j4] == '}' as u8 {
                                Some(j4 + 1)
                            } else {
                                None
                            }
                        },
                    }
                }
            },
        }
    }
}

/// The result, if any, lies strictly past `i` and within `s`.
pub open spec fn ends_within(r: Option<int>, i: int, s: Seq<u8>) -> bool {
    match r {
        Some(j) => i < j <= s.len(),
        None => true,
    }
}

proof fn lemma_skip_value_bounds(s: Seq<u8>, i: int, fuel: nat)
    ensures
        ends_within(spec_skip_value(s, i, fuel), i, s),
        forall|first: bool| ends_within(#[trigger] spec_skip_elems(s, i, fuel, first), i, s),
        forall|first: bool| ends_within(#[trigger] spec_skip_members(s, i, fuel, first), i, s),
    decreases fuel,
{
    if fuel > 0 && 0 <= i < s.len() {
        lemma_str_tail_bounds(s, i + 1);
        lemma_num_end_bounds(s, if i < 0 {
            0
        } else {
            i
        });
        if s[i] == '{' as u8 || s[i] == '[' as u8 {
            lemma_skip_blanks_bounds(s, i + 1);
            lemma_skip_value_bounds(s, spec_skip_blanks(s, i + 1), (fuel - 1) as nat);
        }
        // element continuation
        assert forall|first: bool| ends_within(
            #[trigger] spec_skip_elems(s, i, fuel, first),
            i,
            s,
        ) by {
            if s[i] == ']' as u8 && first {
                assert(spec_skip_elems(s, i, fuel, first) == Some(i + 1));
            } else {
                let v = spec_skip_value(s, i, (fuel - 1) as nat);
                lemma_skip_value_bounds(s, i, (fuel - 1) as nat);
                if v is Some {
                    let j1 = v->Some_0;
                    assert(i < j1 <= s.len());
                    lemma_skip_blanks_bounds(s, j1);
                    let j2 = spec_skip_blanks(s, j1);
                    if j2 < s.len() && s[j2] == ',' as u8 {
                        lemma_skip_blanks_bounds(s, j2 + 1);
                        let b2 = spec_skip_blanks(s, j2 + 1);
                        lemma_skip_value_bounds(s, b2, (fuel - 1) as nat);
                        assert(ends_within(spec_skip_elems(s, b2, (fuel - 1) as nat, false), b2, s));
                        assert(spec_skip_elems(s, i, fuel, first) == spec_skip_elems(s, b2, (fuel - 1) as nat, false));
                    } else if j2 < s.len() && s[j2] == ']' as u8 {
                        assert(spec_skip_elems(s, i, fuel, first) == Some(j2 + 1));
                    } else {
                        assert(spec_skip_elems(s, i, fuel, first) is None);
                    }
                } else {
                    assert(spec_skip_elems(s, i, fuel, first) is None);
                }
            }
        }
        // member continuation
        assert forall|first: bool| ends_within(
            #[trigger] spec_skip_members(s, i, fuel, first),
            i,
            s,
        ) by {
            if !(s[i] == '}' as u8 && first) && s[i] == '"' as u8 && spec_str_tail(s, i + 1)
                is Some {
                let k = spec_str_tail(s, i + 1)->Some_0;
                assert(i + 1 < k.1 <= s.len());
                lemma_skip_blanks_bounds(s, k.1);
                let j2 = spec_skip_blanks(s, k.1);
                if j2 < s.len() && s[j2] == ':' as u8 {
                    lemma_skip_blanks_bounds(s, j2 + 1);
                    let v0 = spec_skip_blanks(s, j2 + 1);
                    lemma_skip_value_bounds(s, v0, (fuel - 1) as nat);
                    let v = spec_skip_value(s, v0, (fuel - 1) as nat);
                    if v is Some {
                        let j3 = v->Some_0;
                        assert(v0 < j3 <= s.len());
                        lemma_skip_blanks_bounds(s, j3);
                        let j4 = spec_skip_blanks(s, j3);
                        if j4 < s.len() && s[j4] == ',' as u8 {
                            lemma_skip_blanks_bounds(s, j4 + 1);
                            let b2 = spec_skip_blanks(s, j4 + 1);
                            lemma_skip_value_bounds(s, b2, (fuel - 1) as nat);
                            assert(ends_within(
                                spec_skip_members(s, b2, (fuel - 1) as nat, false),
                                b2,
                                s,
                            ));
                            assert(spec_skip_members(s, i, fuel, first) == spec_skip_members(
                                s,
                                b2,
                                (fuel - 1) as nat,
                                false,
                            ));
                        } else if j4 < s.len() && s[j4] == '}' as u8 {
                            assert(spec_skip_members(s, i, fuel, first) == Some(j4 + 1));
                        } else {
                            assert(spec_skip_members(s, i, fuel, first) is None);
                        }
                    } else {
                        assert(spec_skip_members(s, i, fuel, first) is None);
                    }
                } else {
                    assert(spec_skip_members(s, i, fuel, first) is None);
                }
            }
        }
        // the value's own container branches delegate to the two scans above
        if s[i] == '{' as u8 {
            assert(spec_skip_value(s, i, fuel) == spec_skip_members(
                s,
                spec_skip_blanks(s, i + 1),
                (fuel - 1) as nat,
                true,
            ));
        } else if s[i] == '[' as u8 {
            assert(spec_skip_value(s, i, fuel) == spec_skip_elems(
                s,
                spec_skip_blanks(s, i + 1),
                (fuel - 1) as nat,
                true,
            ));
        }
    }
}

/// Exec scan for [`spec_skip_value`].
fn skip_value(s: &Vec<u8>, i: usize, fuel: usize) -> (r: Option<usize>)
    requires
        i <= s@.len(),
    ensures
        match r {
            Some(j) => spec_skip_value(s@, i as int, fuel as nat) == Some(j as int) && i < j
                <= s@.len(),
            None => spec_skip_value(s@, i as int, fuel as nat) is None,
        },
    decreases fuel,
{
    if fuel == 0 {
        return None;
    }
    if i >= s.len() {
        return None;
    }
    let b = s[i];
    if b == '"' as u8 {
        match str_tail(s, i + 1) {
            Some(t) => Some(t.1),
            None => None,
        }
    } else if b == '{' as u8 {
        let j = skip_blanks(s, i + 1);
        let r = skip_members(s, j, fuel - 1, true);
        proof {
            if r is Some {
                lemma_skip_value_bounds(s@, j as int, (fuel - 1) as nat);
            }
        }
        r
    } else if b == '[' as u8 {
        let j = skip_blanks(s, i + 1);
        let r = skip_elems(s, j, fuel - 1, true);
        proof {
            if r is Some {
                lemma_skip_value_bounds(s@, j as int, (fuel - 1) as nat);
            }
        }
        r
    } else if true_at(s, i) {
        Some(i + 4)
    } else if false_at(s, i) {
        Some(i + 5)
    } else if null_at(s, i) {
        Some(i + 4)
    } else {
        num_end(s, i)
    }
}

/// Exec scan for [`spec_skip_elems`].
fn skip_elems(s: &Vec<u8>, i: usize, fuel: usize, first: bool) -> (r: Option<usize>)
    requires
        i <= s@.len(),
    ensures
        match r {
            Some(j) => spec_skip_elems(s@, i as int, fuel as nat, first) == Some(j as int) && i < j
                <= s@.len(),
            None => spec_skip_elems(s@, i as int, fuel as nat, first) is None,
        },
    decreases fuel,
{
    if fuel == 0 {
        return None;
    }
    if i >= s.len() {
        return None;
    }
    if s[i] == ']' as u8 && first {
        return Some(i + 1);
    }
    match skip_value(s, i, fuel - 1) {
        None => None,
        Some(j) => {
            let j2 = skip_blanks(s, j);
            if j2 < s.len() && s[j2] == ',' as u8 {
                let j3 = skip_blanks(s, j2 + 1);
                skip_elems(s, j3, fuel - 1, false)
            } else if j2 < s.len() && s[j2] == ']' as u8 {
                Some(j2 + 1)
            } else {
                None
            }
        },
    }
}

/// Exec scan for [`spec_skip_members`].
fn skip_members(s: &Vec<u8>, i: usize, fuel: usize, first: bool) -> (r: Option<usize>)
    requires
        i <= s@.len(),
    ensures
        match r {
            Some(j) => spec_skip_members(s@, i as int, fuel as nat, first) == Some(j as int) && i
                < j <= s@.len(),
            None => spec_skip_members(s@, i as int, fuel as nat, first) is None,
        },
    decreases fuel,
{
    if fuel == 0 {
        return None;
    }
    if i >= s.len() {
        return None;
    }
    if s[i] == '}' as u8 && first {
        return Some(i + 1);
    }
    if s[i] != '"' as u8 {
        return None;
    }
    match str_tail(s, i + 1) {
        None => None,
        Some(k) => {
            let j2 = skip_blanks(s, k.1);
            if !(j2 < s.len() && s[j2] == ':' as u8) {
                return None;
            }
            let v0 = skip_blanks(s, j2 + 1);
            match skip_value(s, v0, fuel - 1) {
                None => None,
                Some(j3) => {
                    let j4 = skip_blanks(s, j3);
                    if j4 < s.len() && s[j4] == ',' as u8 {
                        let j5 = skip_blanks(s, j4 + 1);
                        skip_members(s, j5, fuel - 1, false)
                    } else if j4 < s.len() && s[j4] == '}' as u8 {
                        Some(j4 + 1)
                    } else {
                        None
                    }
                },
            }
        },
    }
}

pub open spec fn key_id() -> Seq<u8> {
    seq!['i' as u8, 'd' as u8]
}

pub open spec fn key_name() -> Seq<u8> {
    seq!['n' as u8, 'a' as u8, 'm' as u8, 'e' as u8]
}

pub open spec fn key_workspace() -> Seq<u8> {
    seq![
        'w' as u8,
        'o' as u8,
        'r' as u8,
        'k' as u8,
        's' as u8,
        'p' as u8,
        'a' as u8,
        'c' as u8,
        'e' as u8,
    ]
}

pub open spec fn key_hidden() -> Seq<u8> {
    seq!['h' as u8, 'i' as u8, 'd' as u8, 'd' as u8, 'e' as u8, 'n' as u8]
}

pub open spec fn key_floating() -> Seq<u8> {
    seq!['f' as u8, 'l' as u8, 'o' as u8, 'a' as u8, 't' as u8, 'i' as u8, 'n' as u8, 'g' as u8]
}

fn eq_key_id(v: &Vec<u8>) -> (r: bool)
    ensures
        r == (v@ == key_id()),
{
    let r = v.len() == 2 && v[0] == 'i' as u8 && v[1] == 'd' as u8;
    proof {
        if r {
            assert(v@ =~= key_id());
        } else {
            assert(v@ != key_id());
        }
    }
    r
}

fn eq_key_name(v: &Vec<u8>) -> (r: bool)
    ensures
        r == (v@ == key_name()),
{
    let r = v.len() == 4 && v[0] == 'n' as u8 && v[1] == 'a' as u8 && v[2] == 'm' as u8 && v[3]
        == 'e' as u8;
    proof {
        if r {
            assert(v@ =~= key_name());
        } else {
            assert(v@ != key_name());
        }
    }
    r
}

fn eq_key_workspace(v: &Vec<u8>) -> (r: bool)
    ensures
        r == (v@ == key_workspace()),
{
    let r = v.len() == 9 && v[0] == 'w' as u8 && v[1] == 'o' as u8 && v[2] == 'r' as u8 && v[3]
        == 'k' as u8 && v[4] == 's' as u8 && v[5] == 'p' as u8 && v[6] == 'a' as u8 && v[7]
        == 'c' as u8 && v[8] == 'e' as u8;
    proof {
        if r {
            assert(v@ =~= key_workspace());
        } else {
            assert(v@ != key_workspace());
        }
    }
    r
}

fn eq_key_hidden(v: &Vec<u8>) -> (r: bool)
    ensures
        r == (v@ == key_hidden()),
{
    let r = v.len() == 6 && v[0] == 'h' as u8 && v[1] == 'i' as u8 && v[2] == 'd' as u8 && v[3]
        == 'd' as u8 && v[4] == 'e' as u8 && v[5] == 'n' as u8;
    proof {
        if r {
            assert(v@ =~= key_hidden());
        } else {
            assert(v@ != key_hidden());
        }
    }
    r
}

fn eq_key_floating(v: &Vec<u8>) -> (r: bool)
    ensures
        r == (v@ == key_floating()),
{
    let r = v.len() == 8 && v[0] == 'f' as u8 && v[1] == 'l' as u8 && v[2] == 'o' as u8 && v[3]
        == 'a' as u8 && v[4] == 't' as u8 && v[5] == 'i' as u8 && v[6] == 'n' as u8 && v[7]
        == 'g' as u8;
    proof {
        if r {
            assert(v@ =~= key_floating());
        } else {
            assert(v@ != key_floating());
        }
    }
    r
}

pub open spec fn view_oi(o: Option<i64>) -> Option<int> {
    match o {
        Some(v) => Some(v as int),
        None => None,
    }
}

pub open spec fn view_on(o: Option<Vec<u8>>) -> Option<Seq<u8>> {
    match o {
        Some(v) => Some(v@),
        None => None,
    }
}

/// A workspace record reduced to its mathematical content.
pub open spec fn view_winfo(w: WorkspaceInfo) -> (int, Seq<u8>) {
    (w.id as int, w.name@)
}

pub open spec fn view_ow(o: Option<WorkspaceInfo>) -> Option<(int, Seq<u8>)> {
    match o {
        Some(w) => Some(view_winfo(w)),
        None => None,
    }
}

pub open spec fn view_wlist(v: Seq<WorkspaceInfo>) -> Seq<(int, Seq<u8>)> {
    Seq::new(v.len(), |k: int| view_winfo(v[k]))
}

/// A client record reduced to its mathematical content.
pub open spec fn view_client(c: Client) -> ((int, Seq<u8>), bool, bool) {
    (view_winfo(c.workspace), c.hidden, c.floating)
}

pub open spec fn view_clist(v: Seq<Client>) -> Seq<((int, Seq<u8>), bool, bool)> {
    Seq::new(v.len(), |k: int| view_client(v[k]))
}

/// The members of a workspace record, from the first non-blank byte after
/// its opening brace: `id` must be an integer, `name` a string, and the
/// last occurrence of each wins; every other member is skipped whatever
/// its shape.
pub open spec fn spec_ws_members(
    s: Seq<u8>,
    i: int,
    fuel: nat,
    first: bool,
    id: Option<int>,
    nm: Option<Seq<u8>>,
) -> Option<((Option<int>, Option<Seq<u8>>), int)>
    decreases fuel,
{
    if fuel == 0 {
        None
    } else if i < 0 || i >= s.len() {
        None
    } else if s[i] == '}' as u8 && first {
        Some(((id, nm), i + 1))
    } else if s[i] != '"' as u8 {
        None
    } else {
        match spec_str_tail(s, i + 1) {
            None => None,
            Some(k) => {
                let j2 = spec_skip_blanks(s, k.1);
                if !(j2 < s.len() && s[j2] == ':' as u8) {
                    None
                } else {
                    let v0 = spec_skip_blanks(s, j2 + 1);
                    let parsed: Option<(Option<int>, Option<Seq<u8>>, int)> = if k.0 == key_id() {
                        match spec_int_tail(s, v0) {
                            None => None,
                            Some(t) => Some((Some(t.0), nm, t.1)),
                        }
                    } else if k.0 == key_name() {
                        if v0 < s.len() && s[v0] == '"' as u8 {
                            match spec_str_tail(s, v0 + 1) {
                                None => None,
                                Some(t) => Some((id, Some(t.0), t.1)),
                            }
                        } else {
                            None
                        }
                    } else {
                        match spec_skip_value(s, v0, (fuel - 1) as nat) {
                            None => None,
                            Some(j) => Some((id, nm, j)),
                        }
                    };
                    match parsed {
                        None => None,
                        Some(p) => {
                            let j4 = spec_skip_blanks(s, p.2);
                            if j4 < s.len() && s[j4] == ',' as u8 {
                                spec_ws_members(
                                    s,
                                    spec_skip_blanks(s, j4 + 1),
                                    (fuel - 1) as nat,
                                    false,
                                    p.0,
                                    p.1,
                                )
                            } else if j4 < s.len() && s[j4] == '}' as u8 {
                                Some(((p.0, p.1), j4 + 1))
                            } else {
                                None
                            }
                        },
                    }
                }
            },
        }
    }
}

/// A whole workspace record standing at `i`: both `id` (within the id
/// range) and `name` must be present.
pub open spec fn spec_ws_obj(s: Seq<u8>, i: int, fuel: nat) -> Option<((int, Seq<u8>), int)>
    decreases fuel,
{
    if fuel == 0 {
        None
    } else if 0 <= i < s.len() && s[i] == '{' as u8 {
        match spec_ws_members(s, spec_skip_blanks(s, i + 1), (fuel - 1) as nat, true, None, None) {
            None => None,
            Some(m) => match m.0.0 {
                Some(idv) => match m.0.1 {
                    Some(nmv) => if i32::MIN <= idv <= i32::MAX {
                        Some(((idv, nmv), m.1))
                    } else {
                        None
                    },
                    None => None,
                },
                None => None,
            },
        }
    } else {
        None
    }
}

/// Exec scan for [`spec_ws_members`].
fn ws_members(
    s: &Vec<u8>,
    i: usize,
    fuel: usize,
    first: bool,
    id: Option<i64>,
    nm: Option<Vec<u8>>,
) -> (r: Option<((Option<i64>, Option<Vec<u8>>), usize)>)
    requires
        i <= s@.len(),
    ensures
        ({
            let sp = spec_ws_members(s@, i as int, fuel as nat, first, view_oi(id), view_on(nm));
            match r {
                Some(t) => sp == Some(((view_oi(t.0.0), view_on(t.0.1)), t.1 as int)) && t.1
                    <= s@.len(),
                None => sp is None,
            }
        }),
    decreases fuel,
{
    if fuel == 0 {
        return None;
    }
    if i >= s.len() {
        return None;
    }
    if s[i] == '}' as u8 && first {
        return Some(((id, nm), i + 1));
    }
    if s[i] != '"' as u8 {
        return None;
    }
    match str_tail(s, i + 1) {
        None => None,
        Some((key, k1)) => {
            let j2 = skip_blanks(s, k1);
            if !(j2 < s.len() && s[j2] == ':' as u8) {
                return None;
            }
            let v0 = skip_blanks(s, j2 + 1);
            let parsed: Option<(Option<i64>, Option<Vec<u8>>, usize)> = if eq_key_id(&key) {
                match int_tail(s, v0) {
                    None => None,
                    Some((v, j)) => Some((Some(v), nm, j)),
                }
            } else if eq_key_name(&key) {
                if v0 < s.len() && s[v0] == '"' as u8 {
                    match str_tail(s, v0 + 1) {
                        None => None,
                        Some((t, j)) => Some((id, Some(t), j)),
                    }
                } else {
                    None
                }
            } else {
                match skip_value(s, v0, fuel - 1) {
                    None => None,
                    Some(j) => Some((id, nm, j)),
                }
            };
            match parsed {
                None => None,
                Some((id2, nm2, j3)) => {
                    let j4 = skip_blanks(s, j3);
                    if j4 < s.len() && s[j4] == ',' as u8 {
                        let j5 = skip_blanks(s, j4 + 1);
                        ws_members(s, j5, fuel - 1, false, id2, nm2)
                    } else if j4 < s.len() && s[j4] == '}' as u8 {
                        Some(((id2, nm2), j4 + 1))
                    } else {
                        None
                    }
                },
            }
        },
    }
}

/// Exec scan for [`spec_ws_obj`].
fn ws_obj(s: &Vec<u8>, i: usize, fuel: usize) -> (r: Option<(WorkspaceInfo, usize)>)
    requires
        i <= s@.len(),
    ensures
        match r {
            Some(t) => spec_ws_obj(s@, i as int, fuel as nat) == Some((view_winfo(t.0), t.1 as int))
                && t.1 <= s@.len(),
            None => spec_ws_obj(s@, i as int, fuel as nat) is None,
        },
    decreases fuel,
{
    if fuel == 0 {
        return None;
    }
    if !(i < s.len() && s[i] == '{' as u8) {
        return None;
    }
    let j = skip_blanks(s, i + 1);
    match ws_members(s, j, fuel - 1, true, None, None) {
        None => None,
        Some(((oid, onm), end)) => match (oid, onm) {
            (Some(idv), Some(nmv)) => {
                if idv >= -2147483648i64 && idv <= 2147483647i64 {
                    Some((WorkspaceInfo { id: idv as i32, name: nmv }, end))
                } else {
                    None
                }
            },
            _ => None,
        },
    }
}

/// The members of a client record: `workspace` must be a workspace record,
/// `hidden` and `floating` booleans; the last occurrence of each wins;
/// every other member is skipped whatever its shape.
pub open spec fn spec_client_members(
    s: Seq<u8>,
    i: int,
    fuel: nat,
    first: bool,
    w: Option<(int, Seq<u8>)>,
    h: Option<bool>,
    f: Option<bool>,
) -> Option<((Option<(int, Seq<u8>)>, Option<bool>, Option<bool>), int)>
    decreases fuel,
{
    if fuel == 0 {
        None
    } else if i < 0 || i >= s.len() {
        None
    } else if s[i] == '}' as u8 && first {
        Some(((w, h, f), i + 1))
    } else if s[i] != '"' as u8 {
        None
    } else {
        match spec_str_tail(s, i + 1) {
            None => None,
            Some(k) => {
                let j2 = spec_skip_blanks(s, k.1);
                if !(j2 < s.len() && s[j2] == ':' as u8) {
                    None
                } else {
                    let v0 = spec_skip_blanks(s, j2 + 1);
                    let parsed: Option<(Option<(int, Seq<u8>)>, Option<bool>, Option<bool>, int)> =
                        if k.0 == key_workspace() {
                        match spec_ws_obj(s, v0, (fuel - 1) as nat) {
                            None => None,
                            Some(t) => Some((Some(t.0), h, f, t.1)),
                        }
                    } else if k.0 == key_hidden() {
                        if spec_lit_at(s, v0, lit_true()) {
                            Some((w, Some(true), f, v0 + 4))
                        } else if spec_lit_at(s, v0, lit_false()) {
                            Some((w, Some(false), f, v0 + 5))
                        } else {
                            None
                        }
                    } else if k.0 == key_floating() {
                        if spec_lit_at(s, v0, lit_true()) {
                            Some((w, h, Some(true), v0 + 4))
                        } else if spec_lit_at(s, v0, lit_false()) {
                            Some((w, h, Some(false), v0 + 5))
                        } else {
                            None
                        }
                    } else {
                        match spec_skip_value(s, v0, (fuel - 1) as nat) {
                            None => None,
                            Some(j) => Some((w, h, f, j)),
                        }
                    };
                    match parsed {
                        None => None,
                        Some(p) => {
                            let j4 = spec_skip_blanks(s, p.3);
                            if j4 < s.len() && s[j4] == ',' as u8 {
                                spec_client_members(
                                    s,
                                    spec_skip_blanks(s, j4 + 1),
                                    (fuel - 1) as nat,
                                    false,
                                    p.0,
                                    p.1,
                                    p.2,
                                )
                            } else if j4 < s.len() && s[j4] == '}' as u8 {
                                Some(((p.0, p.1, p.2), j4 + 1))
                            } else {
                                None
                            }
                        },
                    }
                }
            },
        }
    }
}

/// A whole client record standing at `i`: all three read fields must be
/// present.
pub open spec fn spec_client_obj(s: Seq<u8>, i: int, fuel: nat) -> Option<
    (((int, Seq<u8>), bool, bool), int),
>
    decreases fuel,
{
    if fuel == 0 {
        None
    } else if 0 <= i < s.len() && s[i] == '{' as u8 {
        match spec_client_members(
            s,
            spec_skip_blanks(s, i + 1),
            (fuel - 1) as nat,
            true,
            None,
            None,
            None,
        ) {
            None => None,
            Some(m) => match m.0.0 {
                Some(wv) => match m.0.1 {
                    Some(hv) => match m.0.2 {
                        Some(fv) => Some(((wv, hv, fv), m.1)),
                        None => None,
                    },
                    None => None,
                },
                None => None,
            },
        }
    } else {
        None
    }
}

/// Exec scan for [`spec_client_members`].
fn client_members(
    s: &Vec<u8>,
    i: usize,
    fuel: usize,
    first: bool,
    w: Option<WorkspaceInfo>,
    h: Option<bool>,
    f: Option<bool>,
) -> (r: Option<((Option<WorkspaceInfo>, Option<bool>, Option<bool>), usize)>)
    requires
        i <= s@.len(),
    ensures
        ({
            let sp = spec_client_members(s@, i as int, fuel as nat, first, view_ow(w), h, f);
            match r {
                Some(t) => sp == Some(((view_ow(t.0.0), t.0.1, t.0.2), t.1 as int)) && t.1
                    <= s@.len(),
                None => sp is None,
            }
        }),
    decreases fuel,
{
    if fuel == 0 {
        return None;
    }
    if i >= s.len() {
        return None;
    }
    if s[i] == '}' as u8 && first {
        return Some(((w, h, f), i + 1));
    }
    if s[i] != '"' as u8 {
        return None;
    }
    match str_tail(s, i + 1) {
        None => None,
        Some((key, k1)) => {
            let j2 = skip_blanks(s, k1);
            if !(j2 < s.len() && s[j2] == ':' as u8) {
                return None;
            }
            let v0 = skip_blanks(s, j2 + 1);
            let parsed: Option<(Option<WorkspaceInfo>, Option<bool>, Option<bool>, usize)> =
                if eq_key_workspace(&key) {
                match ws_obj(s, v0, fuel - 1) {
                    None => None,
                    Some((wv, j)) => Some((Some(wv), h, f, j)),
                }
            } else if eq_key_hidden(&key) {
                if true_at(s, v0) {
                    Some((w, Some(true), f, v0 + 4))
                } else if false_at(s, v0) {
                    Some((w, Some(false), f, v0 + 5))
                } else {
                    None
                }
            } else if eq_key_floating(&key) {
                if true_at(s, v0) {
                    Some((w, h, Some(true), v0 + 4))
                } else if false_at(s, v0) {
                    Some((w, h, Some(false), v0 + 5))
                } else {
                    None
                }
            } else {
                match skip_value(s, v0, fuel - 1) {
                    None => None,
                    Some(j) => Some((w, h, f, j)),
                }
            };
            match parsed {
                None => None,
                Some((w2, h2, f2, j3)) => {
                    let j4 = skip_blanks(s, j3);
                    if j4 < s.len() && s[j4] == ',' as u8 {
                        let j5 = skip_blanks(s, j4 + 1);
                        client_members(s, j5, fuel - 1, false, w2, h2, f2)
                    } else if j4 < s.len() && s[j4] == '}' as u8 {
                        Some(((w2, h2, f2), j4 + 1))
                    } else {
                        None
                    }
                },
            }
        },
    }
}

/// Exec scan for [`spec_client_obj`].
fn client_obj(s: &Vec<u8>, i: usize, fuel: usize) -> (r: Option<(Client, usize)>)
    requires
        i <= s@.len(),
    ensures
        match r {
            Some(t) => spec_client_obj(s@, i as int, fuel as nat) == Some(
                (view_client(t.0), t.1 as int),
            ) && t.1 <= s@.len(),
            None => spec_client_obj(s@, i as int, fuel as nat) is None,
        },
    decreases fuel,
{
    if fuel == 0 {
        return None;
    }
    if !(i < s.len() && s[i] == '{' as u8) {
        return None;
    }
    let j = skip_blanks(s, i + 1);
    match client_members(s, j, fuel - 1, true, None, None, None) {
        None => None,
        Some(((ow, oh, of), end)) => match (ow, oh, of) {
            (Some(wv), Some(hv), Some(fv)) => Some(
                (Client { workspace: wv, hidden: hv, floating: fv }, end),
            ),
            _ => None,
        },
    }
}

/// The elements of a workspace listing, from the first non-blank byte
/// after its opening bracket, appended to `acc` in listing order.
pub open spec fn spec_ws_list_elems(
    s: Seq<u8>,
    i: int,
    fuel: nat,
    first: bool,
    acc: Seq<(int, Seq<u8>)>,
) -> Option<(Seq<(int, Seq<u8>)>, int)>
    decreases fuel,
{
    if fuel == 0 {
        None
    } else if i < 0 || i >= s.len() {
        None
    } else if s[i] == ']' as u8 && first {
        Some((acc, i + 1))
    } else {
        match spec_ws_obj(s, i, (fuel - 1) as nat) {
            None => None,
            Some(t) => {
                let j2 = spec_skip_blanks(s, t.1);
                if j2 < s.len() && s[j2] == ',' as u8 {
                    spec_ws_list_elems(
                        s,
                        spec_skip_blanks(s, j2 + 1),
                        (fuel - 1) as nat,
                        false,
                        acc.push(t.0),
                    )
                } else if j2 < s.len() && s[j2] == ']' as u8 {
                    Some((acc.push(t.0), j2 + 1))
                } else {
                    None
                }
            },
        }
    }
}

/// The elements of a client listing, as [`spec_ws_list_elems`].
pub open spec fn spec_client_list_elems(
    s: Seq<u8>,
    i: int,
    fuel: nat,
    first: bool,
    acc: Seq<((int, Seq<u8>), bool, bool)>,
) -> Option<(Seq<((int, Seq<u8>), bool, bool)>, int)>
    decreases fuel,
{
    if fuel == 0 {
        None
    } else if i < 0 || i >= s.len() {
        None
    } else if s[i] == ']' as u8 && first {
        Some((acc, i + 1))
    } else {
        match spec_client_obj(s, i, (fuel - 1) as nat) {
            None => None,
            Some(t) => {
                let j2 = spec_skip_blanks(s, t.1);
                if j2 < s.len() && s[j2] == ',' as u8 {
                    spec_client_list_elems(
                        s,
                        spec_skip_blanks(s, j2 + 1),
                        (fuel - 1) as nat,
                        false,
                        acc.push(t.0),
                    )
                } else if j2 < s.len() && s[j2] == ']' as u8 {
                    Some((acc.push(t.0), j2 + 1))
                } else {
                    None
                }
            },
        }
    }
}

fn ws_list_elems(s: &Vec<u8>, i: usize, fuel: usize, first: bool, acc: Vec<WorkspaceInfo>) -> (r:
    Option<(Vec<WorkspaceInfo>, usize)>)
    requires
        i <= s@.len(),
    ensures
        ({
            let sp = spec_ws_list_elems(s@, i as int, fuel as nat, first, view_wlist(acc@));
            match r {
                Some(t) => sp == Some((view_wlist(t.0@), t.1 as int)) && t.1 <= s@.len(),
                None => sp is None,
            }
        }),
    decreases fuel,
{
    if fuel == 0 {
        return None;
    }
    if i >= s.len() {
        return None;
    }
    if s[i] == ']' as u8 && first {
        return Some((acc, i + 1));
    }
    match ws_obj(s, i, fuel - 1) {
        None => None,
        Some((wv, j)) => {
            let j2 = skip_blanks(s, j);
            let ghost pre = acc@;
            let mut acc = acc;
            acc.push(wv);
            proof {
                assert(view_wlist(acc@) =~= view_wlist(pre).push(view_winfo(wv)));
            }
            if j2 < s.len() && s[j2] == ',' as u8 {
                let j3 = skip_blanks(s, j2 + 1);
                ws_list_elems(s, j3, fuel - 1, false, acc)
            } else if j2 < s.len() && s[j2] == ']' as u8 {
                Some((acc, j2 + 1))
            } else {
                None
            }
        },
    }
}

fn client_list_elems(s: &Vec<u8>, i: usize, fuel: usize, first: bool, acc: Vec<Client>) -> (r:
    Option<(Vec<Client>, usize)>)
    requires
        i <= s@.len(),
    ensures
        ({
            let sp = spec_client_list_elems(s@, i as int, fuel as nat, first, view_clist(acc@));
            match r {
                Some(t) => sp == Some((view_clist(t.0@), t.1 as int)) && t.1 <= s@.len(),
                None => sp is None,
            }
        }),
    decreases fuel,
{
    if fuel == 0 {
        return None;
    }
    if i >= s.len() {
        return None;
    }
    if s[i] == ']' as u8 && first {
        return Some((acc, i + 1));
    }
    match client_obj(s, i, fuel - 1) {
        None => None,
        Some((cv, j)) => {
            let j2 = skip_blanks(s, j);
            let ghost pre = acc@;
            let mut acc = acc;
            acc.push(cv);
            proof {
                assert(view_clist(acc@) =~= view_clist(pre).push(view_client(cv)));
            }
            if j2 < s.len() && s[j2] == ',' as u8 {
                let j3 = skip_blanks(s, j2 + 1);
                client_list_elems(s, j3, fuel - 1, false, acc)
            } else if j2 < s.len() && s[j2] == ']' as u8 {
                Some((acc, j2 + 1))
            } else {
                None
            }
        },
    }
}

/// The workspace record a whole active-workspace document denotes: one
/// record, surrounded by nothing but blanks.
pub open spec fn spec_workspace_doc(s: Seq<u8>) -> Option<(int, Seq<u8>)> {
    let i = spec_skip_blanks(s, 0);
    match spec_ws_obj(s, i, (s.len() + 1) as nat) {
        Some(t) => if spec_skip_blanks(s, t.1) == s.len() {
            Some(t.0)
        } else {
            None
        },
        None => None,
    }
}

/// The records a whole workspace-listing document denotes, in listing
/// order.
pub open spec fn spec_workspaces_doc(s: Seq<u8>) -> Option<Seq<(int, Seq<u8>)>> {
    let i = spec_skip_blanks(s, 0);
    if i < s.len() && s[i] == '[' as u8 {
        match spec_ws_list_elems(
            s,
            spec_skip_blanks(s, i + 1),
            (s.len() + 1) as nat,
            true,
            Seq::empty(),
        ) {
            Some(t) => if spec_skip_blanks(s, t.1) == s.len() {
                Some(t.0)
            } else {
                None
            },
            None => None,
        }
    } else {
        None
    }
}

/// The records a whole client-listing document denotes, in listing order.
pub open spec fn spec_clients_doc(s: Seq<u8>) -> Option<Seq<((int, Seq<u8>), bool, bool)>> {
    let i = spec_skip_blanks(s, 0);
    if i < s.len() && s[i] == '[' as u8 {
        match spec_client_list_elems(
            s,
            spec_skip_blanks(s, i + 1),
            (s.len() + 1) as nat,
            true,
            Seq::empty(),
        ) {
            Some(t) => if spec_skip_blanks(s, t.1) == s.len() {
                Some(t.0)
            } else {
                None
            },
            None => None,
        }
    } else {
        None
    }
}

/// Parses an active-workspace response document into its record, `None`
/// when the document does not follow the grammar.
pub fn parse_workspace(s: &Vec<u8>) -> (r: Option<WorkspaceInfo>)
    requires
        s@.len() < usize::MAX,
    ensures
        match r {
            Some(w) => spec_workspace_doc(s@) == Some(view_winfo(w)),
            None => spec_workspace_doc(s@) is None,
        },
{
    let i = skip_blanks(s, 0);
    match ws_obj(s, i, s.len() + 1) {
        Some((w, j)) => {
            let j2 = skip_blanks(s, j);
            if j2 == s.len() {
                Some(w)
            } else {
                None
            }
        },
        None => None,
    }
}

/// Parses a workspace-listing response document into its records, `None`
/// when the document does not follow the grammar.
pub fn parse_workspaces(s: &Vec<u8>) -> (r: Option<Vec<WorkspaceInfo>>)
    requires
        s@.len() < usize::MAX,
    ensures
        match r {
            Some(v) => spec_workspaces_doc(s@) == Some(view_wlist(v@)),
            None => spec_workspaces_doc(s@) is None,
        },
{
    let i = skip_blanks(s, 0);
    if !(i < s.len() && s[i] == '[' as u8) {
        return None;
    }
    let j = skip_blanks(s, i + 1);
    let acc: Vec<WorkspaceInfo> = Vec::new();
    proof {
        assert(view_wlist(acc@) =~= Seq::<(int, Seq<u8>)>::empty());
    }
    match ws_list_elems(s, j, s.len() + 1, true, acc) {
        Some((v, end)) => {
            let j2 = skip_blanks(s, end);
            if j2 == s.len() {
                Some(v)
            } else {
                None
            }
        },
        None => None,
    }
}

/// Parses a client-listing response document into its records, `None`
/// when the document does not follow the grammar.
pub fn parse_clients(s: &Vec<u8>) -> (r: Option<Vec<Client>>)
    requires
        s@.len() < usize::MAX,
    ensures
        match r {
            Some(v) => spec_clients_doc(s@) == Some(view_clist(v@)),
            None => spec_clients_doc(s@) is None,
        },
{
    let i = skip_blanks(s, 0);
    if !(i < s.len() && s[i] == '[' as u8) {
        return None;
    }
    let j = skip_blanks(s, i + 1);
    let acc: Vec<Client> = Vec::new();
    proof {
        assert(view_clist(acc@) =~= Seq::<((int, Seq<u8>), bool, bool)>::empty());
    }
    match client_list_elems(s, j, s.len() + 1, true, acc) {
        Some((v, end)) => {
            let j2 = skip_blanks(s, end);
            if j2 == s.len() {
                Some(v)
            } else {
                None
            }
        },
        None => None,
    }
}

} // verus!

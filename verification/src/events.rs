//! Parsing of the compositor's event lines.
//!
//! An event line has the shape `NAME>>field1,field2,...`.  The name selects
//! the handler; the payload is split on commas, and for workspace events the
//! first two fields carry the workspace id and name.

use vstd::prelude::*;
use crate::model::WorkspaceInfo;
use crate::model::copy_range;
use crate::wire::find_from;
use crate::wire::find_byte_from;

verus! {

/// The event categories this client reacts to.
#[derive(Clone, Copy, Debug, PartialEq, Eq, Structural)]
pub enum EventKind {
    WorkspaceChanged,
    WorkspaceCreated,
    WorkspaceDestroyed,
    ActiveSpecial,
    WindowOpened,
    WindowClosed,
    FloatingChanged,
    Other,
}

pub open spec fn name_workspace_changed() -> Seq<u8> {
    seq![
        'w' as u8,
        'o' as u8,
        'r' as u8,
        'k' as u8,
        's' as u8,
        'p' as u8,
        'a' as u8,
        'c' as u8,
        'e' as u8,
        'v' as u8,
        '2' as u8,
    ]
}

pub open spec fn name_workspace_created() -> Seq<u8> {
    seq!['c' as u8, 'r' as u8, 'e' as u8, 'a' as u8, 't' as u8, 'e' as u8]
        + name_workspace_changed()
}

pub open spec fn name_workspace_destroyed() -> Seq<u8> {
    seq!['d' as u8, 'e' as u8, 's' as u8, 't' as u8, 'r' as u8, 'o' as u8, 'y' as u8]
        + name_workspace_changed()
}

pub open spec fn name_active_special() -> Seq<u8> {
    seq![
        'a' as u8,
        'c' as u8,
        't' as u8,
        'i' as u8,
        'v' as u8,
        'e' as u8,
        's' as u8,
        'p' as u8,
        'e' as u8,
        'c' as u8,
        'i' as u8,
        'a' as u8,
        'l' as u8,
    ]
}

pub open spec fn name_window_opened() -> Seq<u8> {
    seq![
        'o' as u8,
        'p' as u8,
        'e' as u8,
        'n' as u8,
        'w' as u8,
        'i' as u8,
        'n' as u8,
        'd' as u8,
        'o' as u8,
        'w' as u8,
    ]
}

pub open spec fn name_window_closed() -> Seq<u8> {
    seq![
        'c' as u8,
        'l' as u8,
        'o' as u8,
        's' as u8,
        'e' as u8,
        'w' as u8,
        'i' as u8,
        'n' as u8,
        'd' as u8,
        'o' as u8,
        'w' as u8,
    ]
}

pub open spec fn name_floating_changed() -> Seq<u8> {
    seq![
        'c' as u8,
        'h' as u8,
        'a' as u8,
        'n' as u8,
        'g' as u8,
        'e' as u8,
        'f' as u8,
        'l' as u8,
        'o' as u8,
        'a' as u8,
        't' as u8,
        'i' as u8,
        'n' as u8,
        'g' as u8,
        'm' as u8,
        'o' as u8,
        'd' as u8,
        'e' as u8,
    ]
}

/// The category a given event name maps to; unrecognized names map to
/// `Other` and are ignored without error.
pub open spec fn spec_classify(name: Seq<u8>) -> EventKind {
    if name == name_workspace_changed() {
        EventKind::WorkspaceChanged
    } else if name == name_workspace_created() {
        EventKind::WorkspaceCreated
    } else if name == name_workspace_destroyed() {
        EventKind::WorkspaceDestroyed
    } else if name == name_active_special() {
        EventKind::ActiveSpecial
    } else if name == name_window_opened() {
        EventKind::WindowOpened
    } else if name == name_window_closed() {
        EventKind::WindowClosed
    } else if name == name_floating_changed() {
        EventKind::FloatingChanged
    } else {
        EventKind::Other
    }
}

fn eq_changed(v: &Vec<u8>) -> (r: bool)
    ensures
        r == (v@ == name_workspace_changed()),
{
    let r = v.len() == 11 && v[0] == 'w' as u8 && v[1] == 'o' as u8 && v[2] == 'r' as u8 && v[3]
        == 'k' as u8 && v[4] == 's' as u8 && v[5] == 'p' as u8 && v[6] == 'a' as u8 && v[7]
        == 'c' as u8 && v[8] == 'e' as u8 && v[9] == 'v' as u8 && v[10] == '2' as u8;
    proof {
        if r {
            assert(v@ =~= name_workspace_changed());
        } else {
            assert(v@ != name_workspace_changed());
        }
    }
    r
}

fn eq_created(v: &Vec<u8>) -> (r: bool)
    ensures
        r == (v@ == name_workspace_created()),
{
    let r = v.len() == 17 && v[0] == 'c' as u8 && v[1] == 'r' as u8 && v[2] == 'e' as u8 && v[3]
        == 'a' as u8 && v[4] == 't' as u8 && v[5] == 'e' as u8 && v[6] == 'w' as u8 && v[7]
        == 'o' as u8 && v[8] == 'r' as u8 && v[9] == 'k' as u8 && v[10] == 's' as u8 && v[11]
        == 'p' as u8 && v[12] == 'a' as u8 && v[13] == 'c' as u8 && v[14] == 'e' as u8 && v[15]
        == 'v' as u8 && v[16] == '2' as u8;
    proof {
        if r {
            assert(v@ =~= name_workspace_created());
        } else {
            assert(v@ != name_workspace_created());
        }
    }
    r
}

fn eq_destroyed(v: &Vec<u8>) -> (r: bool)
    ensures
        r == (v@ == name_workspace_destroyed()),
{
    let r = v.len() == 18 && v[0] == 'd' as u8 && v[1] == 'e' as u8 && v[2] == 's' as u8 && v[3]
        == 't' as u8 && v[4] == 'r' as u8 && v[5] == 'o' as u8 && v[6] == 'y' as u8 && v[7]
        == 'w' as u8 && v[8] == 'o' as u8 && v[9] == 'r' as u8 && v[10] == 'k' as u8 && v[11]
        == 's' as u8 && v[12] == 'p' as u8 && v[13] == 'a' as u8 && v[14] == 'c' as u8 && v[15]
        == 'e' as u8 && v[16] == 'v' as u8 && v[17] == '2' as u8;
    proof {
        if r {
            assert(v@ =~= name_workspace_destroyed());
        } else {
            assert(v@ != name_workspace_destroyed());
        }
    }
    r
}

fn eq_special(v: &Vec<u8>) -> (r: bool)
    ensures
        r == (v@ == name_active_special()),
{
    let r = v.len() == 13 && v[0] == 'a' as u8 && v[1] == 'c' as u8 && v[2] == 't' as u8 && v[3]
        == 'i' as u8 && v[4] == 'v' as u8 && v[5] == 'e' as u8 && v[6] == 's' as u8 && v[7]
        == 'p' as u8 && v[8] == 'e' as u8 && v[9] == 'c' as u8 && v[10] == 'i' as u8 && v[11]
        == 'a' as u8 && v[12] == 'l' as u8;
    proof {
        if r {
            assert(v@ =~= name_active_special());
        } else {
            assert(v@ != name_active_special());
        }
    }
    r
}

fn eq_opened(v: &Vec<u8>) -> (r: bool)
    ensures
        r == (v@ == name_window_opened()),
{
    let r = v.len() == 10 && v[0] == 'o' as u8 && v[1] == 'p' as u8 && v[2] == 'e' as u8 && v[3]
        == 'n' as u8 && v[4] == 'w' as u8 && v[5] == 'i' as u8 && v[6] == 'n' as u8 && v[7]
        == 'd' as u8 && v[8] == 'o' as u8 && v[9] == 'w' as u8;
    proof {
        if r {
            assert(v@ =~= name_window_opened());
        } else {
            assert(v@ != name_window_opened());
        }
    }
    r
}

fn eq_closed(v: &Vec<u8>) -> (r: bool)
    ensures
        r == (v@ == name_window_closed()),
{
    let r = v.len() == 11 && v[0] == 'c' as u8 && v[1] == 'l' as u8 && v[2] == 'o' as u8 && v[3]
        == 's' as u8 && v[4] == 'e' as u8 && v[5] == 'w' as u8 && v[6] == 'i' as u8 && v[7]
        == 'n' as u8 && v[8] == 'd' as u8 && v[9] == 'o' as u8 && v[10] == 'w' as u8;
    proof {
        if r {
            assert(v@ =~= name_window_closed());
        } else {
            assert(v@ != name_window_closed());
        }
    }
    r
}

fn eq_floating(v: &Vec<u8>) -> (r: bool)
    ensures
        r == (v@ == name_floating_changed()),
{
    let r = v.len() == 18 && v[0] == 'c' as u8 && v[1] == 'h' as u8 && v[2] == 'a' as u8 && v[3]
        == 'n' as u8 && v[4] == 'g' as u8 && v[5] == 'e' as u8 && v[6] == 'f' as u8 && v[7]
        == 'l' as u8 && v[8] == 'o' as u8 && v[9] == 'a' as u8 && v[10] == 't' as u8 && v[11]
        == 'i' as u8 && v[12] == 'n' as u8 && v[13] == 'g' as u8 && v[14] == 'm' as u8 && v[15]
        == 'o' as u8 && v[16] == 'd' as u8 && v[17] == 'e' as u8;
    proof {
        if r {
            assert(v@ =~= name_floating_changed());
        } else {
            assert(v@ != name_floating_changed());
        }
    }
    r
}

/// Maps an event name to its category.
pub fn classify(name: &Vec<u8>) -> (k: EventKind)
    ensures
        k == spec_classify(name@),
{
    if eq_changed(name) {
        EventKind::WorkspaceChanged
    } else if eq_created(name) {
        EventKind::WorkspaceCreated
    } else if eq_destroyed(name) {
        EventKind::WorkspaceDestroyed
    } else if eq_special(name) {
        EventKind::ActiveSpecial
    } else if eq_opened(name) {
        EventKind::WindowOpened
    } else if eq_closed(name) {
        EventKind::WindowClosed
    } else if eq_floating(name) {
        EventKind::FloatingChanged
    } else {
        EventKind::Other
    }
}

/// First position at or after `i` where the `>>` separator starts.
pub open spec fn find_sep_from(s: Seq<u8>, i: int) -> Option<int>
    decreases s.len() - i,
{
    if i < 0 || i + 1 >= s.len() {
        None
    } else if s[i] == '>' as u8 && s[i + 1] == '>' as u8 {
        Some(i)
    } else {
        find_sep_from(s, i + 1)
    }
}

proof fn lemma_find_sep_in_range(s: Seq<u8>, i: int)
    ensures
        find_sep_from(s, i) matches Some(k) ==> i <= k && k + 2 <= s.len(),
    decreases s.len() - i,
{
    if !(i < 0 || i + 1 >= s.len()) && !(s[i] == '>' as u8 && s[i + 1] == '>' as u8) {
        lemma_find_sep_in_range(s, i + 1);
    }
}

/// The name part of an event line: everything before the first `>>`, or the
/// whole line when there is no separator.
pub open spec fn spec_event_name(line: Seq<u8>) -> Seq<u8> {
    match find_sep_from(line, 0) {
        Some(k) => line.subrange(0, k),
        None => line,
    }
}

/// The payload part of an event line: everything after the first `>>`, or
/// nothing when there is no separator.
pub open spec fn spec_event_payload(line: Seq<u8>) -> Option<Seq<u8>> {
    match find_sep_from(line, 0) {
        Some(k) => Some(line.subrange(k + 2, line.len() as int)),
        None => None,
    }
}

/// Splits an event line at the first `>>` into its name and payload.  A line
/// without a separator is all name and has no payload.
pub fn split_event(line: &Vec<u8>) -> (r: (Vec<u8>, Option<Vec<u8>>))
    ensures
        r.0@ == spec_event_name(line@),
        match r.1 {
            Some(p) => spec_event_payload(line@) == Some(p@),
            None => spec_event_payload(line@) is None,
        },
{
    if line.len() == 0 {
        let name = copy_range(line, 0, 0);
        proof {
            assert(name@ =~= line@);
        }
        return (name, None);
    }
    let mut i: usize = 0;
    while i < line.len() - 1
        invariant
            0 <= i <= line@.len(),
            line@.len() >= 1,
            find_sep_from(line@, 0) == find_sep_from(line@, i as int),
        decreases line@.len() - i,
    {
        if line[i] == '>' as u8 && line[i + 1] == '>' as u8 {
            proof {
                lemma_find_sep_in_range(line@, 0);
            }
            let name = copy_range(line, 0, i);
            let payload = copy_range(line, i + 2, line.len());
            return (name, Some(payload));
        }
        i = i + 1;
    }
    let name = copy_range(line, 0, line.len());
    proof {
        assert(name@ =~= line@);
    }
    (name, None)
}

/// The payload's first comma-separated field (the whole payload if it has no
/// comma).
pub fn first_field(p: &Vec<u8>) -> (r: Vec<u8>)
    ensures
        match find_from(p@, 0, ',' as u8) {
            Some(c) => r@ == p@.subrange(0, c),
            None => r@ == p@,
        },
{
    match find_byte_from(p, 0, ',' as u8) {
        Some(c) => copy_range(p, 0, c),
        None => {
            let r = copy_range(p, 0, p.len());
            proof {
                assert(r@ =~= p@);
            }
            r
        },
    }
}

/// The payload's first two comma-separated fields, or `None` when the
/// payload has fewer than two fields.
pub fn two_fields(p: &Vec<u8>) -> (r: Option<(Vec<u8>, Vec<u8>)>)
    ensures
        match find_from(p@, 0, ',' as u8) {
            Some(c) => {
                &&& r matches Some((f0, f1))
                &&& f0@ == p@.subrange(0, c)
                &&& f1@ == match find_from(p@, c + 1, ',' as u8) {
                    Some(c2) => p@.subrange(c + 1, c2),
                    None => p@.subrange(c + 1, p@.len() as int),
                }
            },
            None => r is None,
        },
{
    match find_byte_from(p, 0, ',' as u8) {
        Some(c) => {
            let f0 = copy_range(p, 0, c);
            let f1 = match find_byte_from(p, c + 1, ',' as u8) {
                Some(c2) => copy_range(p, c + 1, c2),
                None => copy_range(p, c + 1, p.len()),
            };
            Some((f0, f1))
        },
        None => None,
    }
}

/// Decimal digit test.
pub open spec fn is_digit(b: u8) -> bool {
    '0' as u8 <= b <= '9' as u8
}

pub open spec fn all_digits(s: Seq<u8>) -> bool {
    forall|i: int| 0 <= i < s.len() ==> is_digit(s[i])
}

/// Value of a sequence of decimal digits.
pub open spec fn dec_val(s: Seq<u8>) -> int
    decreases s.len(),
{
    if s.len() == 0 {
        0
    } else {
        dec_val(s.drop_last()) * 10 + (s.last() - ('0' as u8))
    }
}

/// The integer denoted by a piece of text, following the grammar of Rust's
/// integer parsing: an optional single `+` or `-` sign followed by at least
/// one decimal digit, nothing else.
pub open spec fn int_text_val(s: Seq<u8>) -> Option<int> {
    if s.len() == 0 {
        None
    } else {
        let neg = s[0] == '-' as u8;
        let digits = if s[0] == '-' as u8 || s[0] == '+' as u8 {
            s.subrange(1, s.len() as int)
        } else {
            s
        };
        if digits.len() == 0 || !all_digits(digits) {
            None
        } else if neg {
            Some(-dec_val(digits))
        } else {
            Some(dec_val(digits))
        }
    }
}

proof fn lemma_dec_val_nonneg(s: Seq<u8>)
    requires
        all_digits(s),
    ensures
        dec_val(s) >= 0,
    decreases s.len(),
{
    if s.len() > 0 {
        assert(all_digits(s.drop_last()));
        lemma_dec_val_nonneg(s.drop_last());
    }
}

/// Parses text as an `i32`, returning `None` on malformed text or a value
/// out of range, exactly as `str::parse::<i32>` would.
pub fn parse_i32(s: &Vec<u8>) -> (r: Option<i32>)
    ensures
        match r {
            Some(v) => int_text_val(s@) == Some(v as int),
            None => match int_text_val(s@) {
                Some(n) => n < i32::MIN || n > i32::MAX,
                None => true,
            },
        },
{
    if s.len() == 0 {
        return None;
    }
    let neg = s[0] == '-' as u8;
    let start: usize = if s[0] == '-' as u8 || s[0] == '+' as u8 {
        1
    } else {
        0
    };
    if start == s.len() {
        return None;
    }
    let ghost digits = if start == 1 {
        s@.subrange(1, s@.len() as int)
    } else {
        s@
    };
    let mut acc: u64 = 0;
    let mut j: usize = start;
    while j < s.len()
        invariant
            start <= j <= s@.len(),
            start == 0 || start == 1,
            s@.len() > 0,
            start < s@.len(),
            (start == 1) == (s@[0] == '-' as u8 || s@[0] == '+' as u8),
            neg == (s@[0] == '-' as u8),
            digits == (if start == 1 {
                s@.subrange(1, s@.len() as int)
            } else {
                s@
            }),
            all_digits(s@.subrange(start as int, j as int)),
            acc <= 0x5_0000_0009,
            dec_val(s@.subrange(start as int, j as int)) <= 0x8000_0000 ==> acc == dec_val(
                s@.subrange(start as int, j as int),
            ),
            dec_val(s@.subrange(start as int, j as int)) > 0x8000_0000 ==> acc > 0x8000_0000,
        decreases s@.len() - j,
    {
        let b = s[j];
        if !('0' as u8 <= b && b <= '9' as u8) {
            proof {
                let k = j - start;
                assert(0 <= k < digits.len());
                assert(digits[k] == s@[j as int]);
                assert(!is_digit(digits[k]));
                assert(!all_digits(digits));
            }
            return None;
        }
        let ghost pre = s@.subrange(start as int, j as int);
        let ghost post = s@.subrange(start as int, j + 1);
        proof {
            assert(post.drop_last() =~= pre);
            assert(post.last() == b);
            lemma_dec_val_nonneg(pre);
        }
        if acc <= 0x8000_0000 {
            acc = acc * 10 + ((b - '0' as u8) as u64);
        }
        j = j + 1;
    }
    proof {
        assert(s@.subrange(start as int, s@.len() as int) =~= digits);
        lemma_dec_val_nonneg(digits);
    }
    if neg {
        if acc <= 0x8000_0000 {
            let v: i32 = (-(acc as i64)) as i32;
            proof {
                assert(int_text_val(s@) == Some(-dec_val(digits)));
                assert(v as int == -dec_val(digits));
            }
            Some(v)
        } else {
            None
        }
    } else {
        if acc <= 0x7FFF_FFFF {
            Some(acc as i32)
        } else {
            None
        }
    }
}

/// The `(id, name)` a workspace event payload denotes: the first field read
/// as an `i32`, the second field as the name.  `None` when a field is
/// missing or the id is malformed.
pub open spec fn spec_id_name(p: Seq<u8>) -> Option<(int, Seq<u8>)> {
    match find_from(p, 0, ',' as u8) {
        None => None,
        Some(c) => {
            let f0 = p.subrange(0, c);
            let f1 = match find_from(p, c + 1, ',' as u8) {
                Some(c2) => p.subrange(c + 1, c2),
                None => p.subrange(c + 1, p.len() as int),
            };
            match int_text_val(f0) {
                None => None,
                Some(n) => if i32::MIN <= n <= i32::MAX {
                    Some((n, f1))
                } else {
                    None
                },
            }
        },
    }
}

/// Parses a workspace event payload into its record.
pub fn parse_id_name(p: &Vec<u8>) -> (r: Option<WorkspaceInfo>)
    ensures
        match r {
            Some(w) => spec_id_name(p@) == Some((w.id as int, w.name@)),
            None => spec_id_name(p@) is None,
        },
{
    match two_fields(p) {
        Some((f0, f1)) => match parse_i32(&f0) {
            Some(id) => Some(WorkspaceInfo { id, name: f1 }),
            None => None,
        },
        None => None,
    }
}

} // verus!

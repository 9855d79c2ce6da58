//! The battery indicator's label logic.
//!
//! Reading the power-supply files is the application's business; the label
//! built from what they contained — level icon, charging marker and the
//! percentage — is computed and specified here.

use vstd::prelude::*;
use vstd::string::StringExecFns;

verus! {

/// The level icon for `percent / 10`.
pub open spec fn spec_icon(level: int) -> Seq<char> {
    if level == 0 {
        "󰂎"@
    } else if level == 1 {
        "󰁺"@
    } else if level == 2 {
        "󰁻"@
    } else if level == 3 {
        "󰁼"@
    } else if level == 4 {
        "󰁽"@
    } else if level == 5 {
        "󰁾"@
    } else if level == 6 {
        "󰁿"@
    } else if level == 7 {
        "󰂀"@
    } else if level == 8 {
        "󰂁"@
    } else if level == 9 {
        "󰁹"@
    } else {
        "󰂃"@
    }
}

/// The marker shown between icon and percentage: a bolt while charging.
pub open spec fn spec_marker(charging: bool) -> Seq<char> {
    if charging {
        "󱐋"@
    } else {
        " "@
    }
}

pub open spec fn spec_digit(d: int) -> Seq<char> {
    if d == 0 {
        "0"@
    } else if d == 1 {
        "1"@
    } else if d == 2 {
        "2"@
    } else if d == 3 {
        "3"@
    } else if d == 4 {
        "4"@
    } else if d == 5 {
        "5"@
    } else if d == 6 {
        "6"@
    } else if d == 7 {
        "7"@
    } else if d == 8 {
        "8"@
    } else {
        "9"@
    }
}

/// The decimal text of a percentage up to one hundred.
pub open spec fn spec_percent_text(p: int) -> Seq<char> {
    if p >= 100 {
        spec_digit(1) + spec_digit(0) + spec_digit(0)
    } else if p >= 10 {
        spec_digit(p / 10) + spec_digit(p % 10)
    } else {
        spec_digit(p)
    }
}

/// ASCII blank bytes, as trimmed off the status file's content.
pub open spec fn is_trim_blank(b: u8) -> bool {
    b == 32 || b == 9 || b == 10 || b == 13 || b == 11 || b == 12
}

/// First non-blank position of `s` at or after `i`.
pub open spec fn spec_trim_start(s: Seq<u8>, i: int) -> int
    decreases s.len() - i,
{
    if 0 <= i < s.len() && is_trim_blank(s[i]) {
        spec_trim_start(s, i + 1)
    } else {
        i
    }
}

/// Length of `s` with trailing blanks dropped.
pub open spec fn spec_trim_end(s: Seq<u8>) -> int
    decreases s.len(),
{
    if s.len() > 0 && is_trim_blank(s.last()) {
        spec_trim_end(s.drop_last())
    } else {
        s.len() as int
    }
}

/// `s` with leading and trailing blanks dropped.
pub open spec fn spec_trim(s: Seq<u8>) -> Seq<u8> {
    if spec_trim_start(s, 0) >= spec_trim_end(s) {
        Seq::empty()
    } else {
        s.subrange(spec_trim_start(s, 0), spec_trim_end(s))
    }
}

pub open spec fn charging_text() -> Seq<u8> {
    seq![
        'C' as u8,
        'h' as u8,
        'a' as u8,
        'r' as u8,
        'g' as u8,
        'i' as u8,
        'n' as u8,
        'g' as u8,
    ]
}

/// Whether a status file's content, trimmed, reads `Charging`.  A missing
/// status never counts as charging.
pub open spec fn spec_charging(status: Option<Seq<u8>>) -> bool {
    match status {
        Some(b) => spec_trim(b) == charging_text(),
        None => false,
    }
}

/// The label shown for the given battery readings: level icon, charging
/// marker, a space and the percentage — or nothing when no percentage
/// could be read.
pub open spec fn spec_battery_label(percent: Option<u64>, status: Option<Seq<u8>>) -> Seq<char> {
    match percent {
        Some(p) => spec_icon(p as int / 10) + spec_marker(spec_charging(status)) + " "@
            + spec_percent_text(p as int),
        None => Seq::empty(),
    }
}

proof fn lemma_trim_end_bounds(s: Seq<u8>)
    ensures
        0 <= spec_trim_end(s) <= s.len(),
    decreases s.len(),
{
    if s.len() > 0 && is_trim_blank(s.last()) {
        lemma_trim_end_bounds(s.drop_last());
    }
}

proof fn lemma_trim_start_bounds(s: Seq<u8>, i: int)
    requires
        0 <= i <= s.len(),
    ensures
        i <= spec_trim_start(s, i) <= s.len(),
    decreases s.len() - i,
{
    if 0 <= i < s.len() && is_trim_blank(s[i]) {
        lemma_trim_start_bounds(s, i + 1);
    }
}

/// Exec scan for [`spec_trim_end`]: the subtle part is that dropping a
/// trailing blank of the whole vector leaves the scan of any prefix that
/// still ends in a non-blank byte unchanged.
fn trim_end(s: &Vec<u8>) -> (e: usize)
    ensures
        e as int == spec_trim_end(s@),
        e <= s@.len(),
{
    proof {
        lemma_trim_end_bounds(s@);
        assert(s@.subrange(0, s@.len() as int) =~= s@);
    }
    let mut e = s.len();
    while e > 0 && (s[e - 1] == 32 || s[e - 1] == 9 || s[e - 1] == 10 || s[e - 1] == 13 || s[e - 1]
        == 11 || s[e - 1] == 12)
        invariant
            0 <= e <= s@.len(),
            spec_trim_end(s@) == spec_trim_end(s@.subrange(0, e as int)),
        decreases e,
    {
        proof {
            assert(s@.subrange(0, e as int).drop_last() =~= s@.subrange(0, e - 1));
            assert(s@.subrange(0, e as int).last() == s@[e - 1]);
        }
        e = e - 1;
    }
    proof {
        let sub = s@.subrange(0, e as int);
        if e > 0 {
            assert(sub.last() == s@[e - 1]);
            assert(spec_trim_end(sub) == e);
        } else {
            assert(sub.len() == 0);
        }
    }
    e
}

/// Whether the status bytes, trimmed, read `Charging`.
fn charging(status: &Vec<u8>) -> (r: bool)
    ensures
        r == spec_charging(Some(status@)),
{
    proof {
        lemma_trim_start_bounds(status@, 0);
    }
    let mut a: usize = 0;
    while a < status.len() && (status[a] == 32 || status[a] == 9 || status[a] == 10 || status[a]
        == 13 || status[a] == 11 || status[a] == 12)
        invariant
            0 <= a <= status@.len(),
            spec_trim_start(status@, 0) == spec_trim_start(status@, a as int),
        decreases status@.len() - a,
    {
        a = a + 1;
    }
    let e = trim_end(status);
    if a >= e {
        proof {
            assert(spec_trim(status@) =~= Seq::<u8>::empty());
            assert(charging_text().len() == 8);
        }
        return false;
    }
    let ghost t = spec_trim(status@);
    proof {
        assert(t == status@.subrange(a as int, e as int));
    }
    let r = e - a == 8 && status[a] == 'C' as u8 && status[a + 1] == 'h' as u8 && status[a + 2]
        == 'a' as u8 && status[a + 3] == 'r' as u8 && status[a + 4] == 'g' as u8 && status[a + 5]
        == 'i' as u8 && status[a + 6] == 'n' as u8 && status[a + 7] == 'g' as u8;
    proof {
        if r {
            assert(t =~= charging_text());
        } else {
            if t.len() == 8 {
                assert(t[0] == status@[a as int] && t[1] == status@[a + 1] && t[2] == status@[a + 2]
                    && t[3] == status@[a + 3] && t[4] == status@[a + 4] && t[5] == status@[a + 5]
                    && t[6] == status@[a + 6] && t[7] == status@[a + 7]);
                assert(t != charging_text());
            }
        }
    }
    r
}

fn append_digit(out: &mut String, d: u64)
    requires
        d < 10,
    ensures
        final(out)@ == old(out)@ + spec_digit(d as int),
{
    if d == 0 {
        out.append("0");
    } else if d == 1 {
        out.append("1");
    } else if d == 2 {
        out.append("2");
    } else if d == 3 {
        out.append("3");
    } else if d == 4 {
        out.append("4");
    } else if d == 5 {
        out.append("5");
    } else if d == 6 {
        out.append("6");
    } else if d == 7 {
        out.append("7");
    } else if d == 8 {
        out.append("8");
    } else {
        out.append("9");
    }
}

/// A battery indicator: its current label.
#[derive(Debug)]
pub struct Battery {
    pub label: String,
}

impl Battery {
    /// Whether a battery is present: the supply directory and both of its
    /// status and capacity files were found.
    pub fn has(supply: bool, status: bool, capacity: bool) -> (r: bool)
        ensures
            r == (supply && status && capacity),
    {
        supply && status && capacity
    }

    /// The label for the given readings.  The percentage, when present,
    /// is at most one hundred, as the capacity file reports.
    pub fn fmt(percent: Option<u64>, status: Option<Vec<u8>>) -> (r: String)
        requires
            percent matches Some(p) ==> p <= 100,
        ensures
            r@ == spec_battery_label(
                percent,
                match status {
                    Some(v) => Some(v@),
                    None => None,
                },
            ),
    {
        match percent {
            None => String::new(),
            Some(p) => {
                let is_charging = match &status {
                    Some(v) => charging(v),
                    None => false,
                };
                let mut out = String::new();
                let level = p / 10;
                if level == 0 {
                    out.append("󰂎");
                } else if level == 1 {
                    out.append("󰁺");
                } else if level == 2 {
                    out.append("󰁻");
                } else if level == 3 {
                    out.append("󰁼");
                } else if level == 4 {
                    out.append("󰁽");
                } else if level == 5 {
                    out.append("󰁾");
                } else if level == 6 {
                    out.append("󰁿");
                } else if level == 7 {
                    out.append("󰂀");
                } else if level == 8 {
                    out.append("󰂁");
                } else if level == 9 {
                    out.append("󰁹");
                } else {
                    out.append("󰂃");
                }
                if is_charging {
                    out.append("󱐋");
                } else {
                    out.append(" ");
                }
                out.append(" ");
                if p >= 100 {
                    append_digit(&mut out, 1);
                    append_digit(&mut out, 0);
                    append_digit(&mut out, 0);
                } else if p >= 10 {
                    append_digit(&mut out, p / 10);
                    append_digit(&mut out, p % 10);
                } else {
                    append_digit(&mut out, p);
                }
                out
            },
        }
    }

    /// The indicator, when a battery is present at all.
    pub fn new(present: bool, percent: Option<u64>, status: Option<Vec<u8>>) -> (r: Option<
        Battery,
    >)
        requires
            percent matches Some(p) ==> p <= 100,
        ensures
            match r {
                Some(b) => present && b.label@ == spec_battery_label(
                    percent,
                    match status {
                        Some(v) => Some(v@),
                        None => None,
                    },
                ),
                None => !present,
            },
    {
        if present {
            Some(Battery { label: Battery::fmt(percent, status) })
        } else {
            None
        }
    }
}

/// The indicator, when a battery is present at all.
pub fn new(present: bool, percent: Option<u64>, status: Option<Vec<u8>>) -> (r: Option<Battery>)
    requires
        percent matches Some(p) ==> p <= 100,
    ensures
        match r {
            Some(b) => present && b.label@ == spec_battery_label(
                percent,
                match status {
                    Some(v) => Some(v@),
                    None => None,
                },
            ),
            None => !present,
        },
{
    Battery::new(present, percent, status)
}

} // verus!

use vstd::prelude::*;

verus! {

pub open spec fn digit_char(d: int) -> char {
    if d == 0 {
        '0'
    } else if d == 1 {
        '1'
    } else if d == 2 {
        '2'
    } else if d == 3 {
        '3'
    } else if d == 4 {
        '4'
    } else if d == 5 {
        '5'
    } else if d == 6 {
        '6'
    } else if d == 7 {
        '7'
    } else if d == 8 {
        '8'
    } else {
        '9'
    }
}

/// Decimal digits of `n`, without leading zeros.
pub open spec fn decimal(n: nat) -> Seq<char>
    decreases n,
{
    if n < 10 {
        seq![digit_char(n as int)]
    } else {
        decimal(n / 10).push(digit_char((n % 10) as int))
    }
}

/// `s` right-aligned in a field of `width` characters, filled with spaces.
pub open spec fn padded(s: Seq<char>, width: nat) -> Seq<char> {
    if s.len() < width {
        Seq::new((width - s.len()) as nat, |i: int| ' ') + s
    } else {
        s
    }
}

/// One part of a formatted duration: nothing when not shown; else an optional separating
/// space, the value (right-aligned on two places after a space) and its unit.
pub open spec fn part(show: bool, spaced: bool, value: nat, unit: Seq<char>) -> Seq<char> {
    if !show {
        Seq::empty()
    } else if spaced {
        " "@ + padded(decimal(value), 2) + unit
    } else {
        decimal(value) + unit
    }
}

/// A duration of `ms` milliseconds as text: `--` under a second; else hours, minutes
/// and seconds, each shown when not zero, seconds only under a minute (`1h  5m`, `42s`).
pub open spec fn duration_text(ms: int) -> Seq<char> {
    let secs = ms / 1000;
    let hours = secs / 3600;
    let minutes = secs / 60 % 60;
    let seconds = secs % 60;
    if secs == 0 {
        "--"@
    } else {
        part(hours > 0, secs >= 86400, hours as nat, "h"@) + part(
            minutes != 0,
            secs >= 3600,
            minutes as nat,
            "m"@,
        ) + if secs >= 60 {
            Seq::empty()
        } else {
            part(seconds != 0, false, seconds as nat, "s"@)
        }
    }
}

fn digit_text(d: u64) -> (r: &'static str)
    requires
        d < 10,
    ensures
        r@ == seq![digit_char(d as int)],
{
    if d == 0 {
        proof {
            reveal_strlit("0");
        }
        "0"
    } else if d == 1 {
        proof {
            reveal_strlit("1");
        }
        "1"
    } else if d == 2 {
        proof {
            reveal_strlit("2");
        }
        "2"
    } else if d == 3 {
        proof {
            reveal_strlit("3");
        }
        "3"
    } else if d == 4 {
        proof {
            reveal_strlit("4");
        }
        "4"
    } else if d == 5 {
        proof {
            reveal_strlit("5");
        }
        "5"
    } else if d == 6 {
        proof {
            reveal_strlit("6");
        }
        "6"
    } else if d == 7 {
        proof {
            reveal_strlit("7");
        }
        "7"
    } else if d == 8 {
        proof {
            reveal_strlit("8");
        }
        "8"
    } else {
        proof {
            reveal_strlit("9");
        }
        "9"
    }
}

/// The decimal digits of `n`.
fn decimal_string(n: u64) -> (r: String)
    ensures
        r@ == decimal(n as nat),
    decreases n,
{
    if n < 10 {
        String::from_str(digit_text(n))
    } else {
        let mut s = decimal_string(n / 10);
        s.append(digit_text(n % 10));
        s
    }
}

proof fn lemma_decimal_len(n: nat)
    ensures
        decimal(n).len() >= 1,
        decimal(n).len() == 1 <==> n < 10,
    decreases n,
{
    if n >= 10 {
        lemma_decimal_len(n / 10);
    }
}

fn append_part(out: &mut String, spaced: bool, value: u64, unit: &str)
    ensures
        final(out)@ == old(out)@ + part(true, spaced, value as nat, unit@),
{
    let ghost start = out@;
    let t = decimal_string(value);
    proof {
        lemma_decimal_len(value as nat);
    }
    if spaced {
        out.append(" ");
        if value < 10 {
            proof {
                reveal_strlit(" ");
                assert(padded(decimal(value as nat), 2) =~= " "@ + decimal(value as nat));
            }
            out.append(" ");
        }
        out.append(t.as_str());
    } else {
        out.append(t.as_str());
    }
    out.append(unit);
    assert(out@ =~= start + part(true, spaced, value as nat, unit@));
}

/// A non-negative duration in milliseconds as text for display.
pub fn format_duration(ms: i64) -> (r: String)
    requires
        ms >= 0,
    ensures
        r@ == duration_text(ms as int),
{
    let secs: i64 = ms / 1000;
    let hours: i64 = secs / 3600;
    let minutes: i64 = secs / 60 % 60;
    let seconds: i64 = secs % 60;
    if secs == 0 {
        return String::from_str("--");
    }
    let mut out = String::new();
    if hours > 0 {
        append_part(&mut out, secs >= 86400, hours as u64, "h");
    }
    if minutes != 0 {
        append_part(&mut out, secs >= 3600, minutes as u64, "m");
    }
    if secs < 60 && seconds != 0 {
        append_part(&mut out, false, seconds as u64, "s");
    }
    assert(out@ =~= duration_text(ms as int));
    out
}

} // verus!

use vstd::prelude::*;

use crate::task::{Task, TimeRecord};

verus! {

/// One line of a time-sheet file: when the interval finished (`2021-10-05-19-18`, UTC),
/// how many minutes it lasted, and the name of its task.
pub struct CsvRow {
    pub finish: String,
    pub minutes: String,
    pub name: String,
}

/// Why an import was refused; each names the index of the offending row.
#[derive(PartialEq, Eq, Structural, Debug, Clone, Copy)]
pub enum ImportError {
    /// The finish time is not of the form year-month-day-hour-minute.
    BadTime(usize),
    /// The duration is not a whole number of minutes.
    BadMinutes(usize),
    /// The interval is not positive, starts before the epoch, or is out of range.
    DegenerateInterval(usize),
    /// An earlier row starts at the same time.
    DuplicateStart(usize),
}

/// The instant, in milliseconds since the epoch, that chrono reads from a finish time in
/// the format `%Y-%m-%d-%H-%M` taken as UTC.
pub uninterp spec fn finish_time_of(s: Seq<char>) -> Option<i64>;

/// Relies on chrono's `NaiveDateTime::parse_from_str` with `%Y-%m-%d-%H-%M`, read as UTC:
/// the result depends on the text alone.
#[verifier::external_body]
fn parse_finish(s: &str) -> (r: Option<i64>)
    ensures
        r == finish_time_of(s@),
{
    let t = chrono::NaiveDateTime::parse_from_str(s, "%Y-%m-%d-%H-%M").ok()?;
    Some(t.and_utc().timestamp_millis())
}

pub open spec fn is_digit(c: char) -> bool {
    '0' <= c <= '9'
}

/// Value of a string of decimal digits.
pub open spec fn digits_value(s: Seq<char>) -> int
    decreases s.len(),
{
    if s.len() == 0 {
        0
    } else {
        digits_value(s.drop_last()) * 10 + (s.last() as u32 - '0' as u32)
    }
}

pub open spec fn all_digits(s: Seq<char>) -> bool {
    s.len() > 0 && forall|i: int| 0 <= i < s.len() ==> is_digit(#[trigger] s[i])
}

/// A decimal integer: an optional `+` or `-` sign followed by one or more digits.
pub open spec fn integer_text(s: Seq<char>) -> Option<int> {
    if s.len() > 0 && s[0] == '-' {
        if all_digits(s.drop_first()) {
            Some(-digits_value(s.drop_first()))
        } else {
            None
        }
    } else if s.len() > 0 && s[0] == '+' {
        if all_digits(s.drop_first()) {
            Some(digits_value(s.drop_first()))
        } else {
            None
        }
    } else if all_digits(s) {
        Some(digits_value(s))
    } else {
        None
    }
}

/// The `i64` that a text holds, if it holds one in range.
pub open spec fn parsed_i64(s: Seq<char>) -> Option<i64> {
    match integer_text(s) {
        Some(v) => if i64::MIN <= v <= i64::MAX {
            Some(v as i64)
        } else {
            None
        },
        None => None,
    }
}

proof fn lemma_digits_prefix(t: Seq<char>, k: int)
    requires
        0 <= k <= t.len(),
        forall|i: int| 0 <= i < t.len() ==> is_digit(#[trigger] t[i]),
    ensures
        0 <= digits_value(t.subrange(0, k)) <= digits_value(t),
    decreases t.len(),
{
    if k < t.len() {
        let u = t.drop_last();
        assert forall|i: int| 0 <= i < u.len() implies is_digit(#[trigger] u[i]) by {
            assert(u[i] == t[i]);
        }
        lemma_digits_prefix(u, k);
        assert(u.subrange(0, k) =~= t.subrange(0, k));
        assert(t.last() == t[t.len() - 1]);
        lemma_digits_prefix(u, u.len() as int);
        assert(u.subrange(0, u.len() as int) =~= u);
    } else {
        assert(t.subrange(0, k) =~= t);
        lemma_digits_nonneg(t);
    }
}

proof fn lemma_digits_nonneg(t: Seq<char>)
    requires
        forall|i: int| 0 <= i < t.len() ==> is_digit(#[trigger] t[i]),
    ensures
        digits_value(t) >= 0,
    decreases t.len(),
{
    if t.len() > 0 {
        let u = t.drop_last();
        assert forall|i: int| 0 <= i < u.len() implies is_digit(#[trigger] u[i]) by {
            assert(u[i] == t[i]);
        }
        lemma_digits_nonneg(u);
        assert(t.last() == t[t.len() - 1]);
    }
}

/// Reads a decimal `i64`: an optional sign and one or more digits, in range, and nothing
/// else.
pub fn parse_i64(s: &str) -> (r: Option<i64>)
    ensures
        r == parsed_i64(s@),
{
    let n = s.unicode_len();
    if n == 0 {
        return None;
    }
    let first = s.get_char(0);
    let neg = first == '-';
    let start: usize = if first == '-' || first == '+' {
        1
    } else {
        0
    };
    let ghost rest = s@.subrange(start as int, n as int);
    proof {
        if start == 1 {
            assert(rest =~= s@.drop_first());
        } else {
            assert(rest =~= s@);
        }
    }
    if start == n {
        return None;
    }
    let limit: i128 = 9_223_372_036_854_775_808;
    let mut v: i128 = 0;
    let mut i: usize = start;
    assert(rest.subrange(0, 0) =~= Seq::<char>::empty());
    while i < n
        invariant
            start <= i <= n,
            n == s@.len(),
            start < n,
            rest == s@.subrange(start as int, n as int),
            forall|j: int| 0 <= j < i - start ==> is_digit(#[trigger] rest[j]),
            v == digits_value(rest.subrange(0, i - start)),
            0 <= v <= limit,
            limit == 9_223_372_036_854_775_808,
            first == s@[0],
            start == 1 ==> rest == s@.drop_first(),
            start == 0 ==> rest == s@,
            neg == (first == '-'),
            start == (if first == '-' || first == '+' {
                1usize
            } else {
                0usize
            }),
        decreases n - i,
    {
        let c = s.get_char(i);
        assert(rest[i - start] == c);
        if !('0' <= c && c <= '9') {
            assert(!all_digits(rest));
            return None;
        }
        let d = (c as u32 - '0' as u32) as i128;
        proof {
            let p = rest.subrange(0, i - start + 1);
            assert(p.drop_last() =~= rest.subrange(0, i - start));
            assert(p.last() == c);
        }
        v = v * 10 + d;
        i = i + 1;
        assert(v == digits_value(rest.subrange(0, i - start)));
        if v > limit {
            proof {
                if all_digits(rest) {
                    lemma_digits_prefix(rest, i - start);
                    assert(digits_value(rest) > limit);
                }
                assert(parsed_i64(s@) is None);
            }
            return None;
        }
    }
    assert(rest.subrange(0, n - start) =~= rest);
    assert(all_digits(rest));
    if neg {
        Some((-v) as i64)
    } else if v < limit {
        Some(v as i64)
    } else {
        None
    }
}

/// Milliseconds per minute.
pub const MINUTE: i64 = 60_000;

/// Start of the interval of a row whose finish and minutes both read.
pub open spec fn row_start(row: CsvRow) -> int {
    finish_time_of(row.finish@).unwrap() - parsed_i64(row.minutes@).unwrap() * MINUTE
}

/// A row reads, lasts a positive number of minutes and starts after the epoch.
pub open spec fn row_good(row: CsvRow) -> bool {
    &&& finish_time_of(row.finish@) is Some
    &&& parsed_i64(row.minutes@) is Some
    &&& parsed_i64(row.minutes@).unwrap() > 0
    &&& row_start(row) > 0
}

/// Some task of `all` has the given name and id.
pub open spec fn named(all: Seq<Task>, name: Seq<char>, uid: Seq<char>) -> bool {
    exists|k: int| 0 <= k < all.len() && #[trigger] all[k].name@ == name && all[k].uid@ == uid
}

pub open spec fn has_name(all: Seq<Task>, name: Seq<char>) -> bool {
    exists|k: int| 0 <= k < all.len() && #[trigger] all[k].name@ == name
}

/// One of the first `n` rows names `name`.
pub open spec fn named_by_row(rows: Seq<CsvRow>, n: int, name: Seq<char>) -> bool {
    exists|a: int| 0 <= a < n && #[trigger] rows[a].name@ == name
}

fn find_by_name(tasks: &Vec<Task>, name: &String) -> (r: Option<usize>)
    ensures
        r.is_none() <==> !has_name(tasks@, name@),
        r matches Some(k) ==> k < tasks@.len() && tasks@[k as int].name@ == name@,
{
    let mut k: usize = 0;
    while k < tasks.len()
        invariant
            0 <= k <= tasks@.len(),
            forall|j: int| 0 <= j < k ==> #[trigger] tasks@[j].name@ != name@,
        decreases tasks@.len() - k,
    {
        if tasks[k].name.eq(name) {
            return Some(k);
        }
        k = k + 1;
    }
    None
}

/// The records and the new tasks of a time sheet. A row names its task by name: a known
/// task of that name, else a new one made for it (one per name). Every row must read,
/// last a positive time, start after the epoch and start at a time of its own.
pub fn get_csv_entries(rows: &Vec<CsvRow>, tasks: &Vec<Task>) -> (r: Result<
    (Vec<Task>, Vec<TimeRecord>),
    ImportError,
>)
    ensures
        r is Ok <==> (forall|i: int| 0 <= i < rows@.len() ==> row_good(#[trigger] rows@[i])) && (
        forall|i: int, j: int|
            0 <= i < j < rows@.len() ==> row_start(rows@[i]) != row_start(rows@[j])),
        r matches Ok((new_tasks, recs)) ==> {
            &&& recs@.len() == rows@.len()
            &&& forall|i: int|
                0 <= i < rows@.len() ==> {
                    &&& (#[trigger] recs@[i]).from == row_start(rows@[i])
                    &&& recs@[i].to == finish_time_of(rows@[i].finish@).unwrap()
                    &&& recs@[i].valid()
                    &&& named(tasks@ + new_tasks@, rows@[i].name@, recs@[i].uid@)
                }
            &&& forall|k: int| 0 <= k < new_tasks@.len() ==> !has_name(tasks@, (#[trigger] new_tasks@[k]).name@)
            &&& forall|k: int| 0 <= k < new_tasks@.len() ==> (#[trigger] new_tasks@[k]).wf()
            &&& forall|a: int, b: int|
                0 <= a < b < new_tasks@.len() ==> new_tasks@[a].name@ != new_tasks@[b].name@
            &&& forall|k: int|
                0 <= k < new_tasks@.len() ==> named_by_row(
                    rows@,
                    rows@.len() as int,
                    (#[trigger] new_tasks@[k]).name@,
                )
        },
        r matches Err(ImportError::BadTime(i)) ==> i < rows@.len() && finish_time_of(rows@[i as int].finish@) is None,
        r matches Err(ImportError::BadMinutes(i)) ==> i < rows@.len() && parsed_i64(rows@[i as int].minutes@) is None,
        r matches Err(ImportError::DegenerateInterval(i)) ==> i < rows@.len() && !row_good(rows@[i as int]),
        r matches Err(ImportError::DuplicateStart(i)) ==> i < rows@.len() && exists|j: int|
            0 <= j < i && row_start(rows@[j]) == row_start(rows@[i as int]),
{
    let mut new_tasks: Vec<Task> = Vec::new();
    let mut recs: Vec<TimeRecord> = Vec::new();
    let mut i: usize = 0;
    while i < rows.len()
        invariant
            0 <= i <= rows@.len(),
            recs@.len() == i,
            forall|a: int| 0 <= a < i ==> row_good(#[trigger] rows@[a]),
            forall|a: int, b: int| 0 <= a < b < i ==> row_start(rows@[a]) != row_start(rows@[b]),
            forall|a: int|
                0 <= a < i ==> {
                    &&& (#[trigger] recs@[a]).from == row_start(rows@[a])
                    &&& recs@[a].to == finish_time_of(rows@[a].finish@).unwrap()
                    &&& recs@[a].valid()
                    &&& named(tasks@ + new_tasks@, rows@[a].name@, recs@[a].uid@)
                },
            forall|k: int| 0 <= k < new_tasks@.len() ==> !has_name(tasks@, (#[trigger] new_tasks@[k]).name@),
            forall|k: int| 0 <= k < new_tasks@.len() ==> (#[trigger] new_tasks@[k]).wf(),
            forall|a: int, b: int|
                0 <= a < b < new_tasks@.len() ==> new_tasks@[a].name@ != new_tasks@[b].name@,
            forall|k: int|
                0 <= k < new_tasks@.len() ==> named_by_row(
                    rows@,
                    i as int,
                    (#[trigger] new_tasks@[k]).name@,
                ),
        decreases rows@.len() - i,
    {
        let row = &rows[i];
        let to = match parse_finish(row.finish.as_str()) {
            Some(t) => t,
            None => {
                return Err(ImportError::BadTime(i));
            },
        };
        let minutes = match parse_i64(row.minutes.as_str()) {
            Some(m) => m,
            None => {
                return Err(ImportError::BadMinutes(i));
            },
        };
        if minutes <= 0 || minutes > i64::MAX / MINUTE || to <= minutes * MINUTE {
            proof {
                if minutes > 0 && minutes <= i64::MAX / MINUTE {
                    assert(row_start(rows@[i as int]) == to - minutes * MINUTE);
                }
                if minutes > i64::MAX / MINUTE {
                    assert(minutes * MINUTE > i64::MAX) by (nonlinear_arith)
                        requires
                            minutes > i64::MAX / MINUTE,
                    ;
                    assert(to <= i64::MAX);
                }
            }
            return Err(ImportError::DegenerateInterval(i));
        }
        let from = to - minutes * MINUTE;
        assert(row_start(rows@[i as int]) == from);
        let mut j: usize = 0;
        while j < i
            invariant
                0 <= j <= i,
                i < rows@.len(),
                recs@.len() == i,
                forall|a: int| 0 <= a < i ==> (#[trigger] recs@[a]).from == row_start(rows@[a]),
                forall|a: int| 0 <= a < j ==> row_start(#[trigger] rows@[a]) != from,
                row_start(rows@[i as int]) == from,
            decreases i - j,
        {
            if recs[j].from == from {
                assert(row_start(rows@[j as int]) == row_start(rows@[i as int]));
                return Err(ImportError::DuplicateStart(i));
            }
            j = j + 1;
        }
        let ghost all_before = tasks@ + new_tasks@;
        let uid = match find_by_name(tasks, &row.name) {
            Some(k) => {
                proof {
                    assert(all_before[k as int] == tasks@[k as int]);
                }
                tasks[k].uid.clone()
            },
            None => match find_by_name(&new_tasks, &row.name) {
                Some(k) => {
                    proof {
                        assert(all_before[tasks@.len() + k] == new_tasks@[k as int]);
                    }
                    new_tasks[k].uid.clone()
                },
                None => {
                    let task = Task::new_simple(row.name.clone());
                    let u = task.uid.clone();
                    let ghost pre = new_tasks@;
                    new_tasks.push(task);
                    proof {
                        let all = tasks@ + new_tasks@;
                        assert(all[all.len() - 1] == new_tasks@[new_tasks@.len() - 1]);
                        assert forall|a: int, b: int|
                            0 <= a < b < new_tasks@.len() implies new_tasks@[a].name@
                            != new_tasks@[b].name@ by {
                            assert(new_tasks@[a] == pre[a]);
                            if b < pre.len() {
                                assert(new_tasks@[b] == pre[b]);
                            } else {
                                assert(new_tasks@[b].name@ == rows@[i as int].name@);
                                assert(!has_name(pre, rows@[i as int].name@));
                                assert(pre[a].name@ != rows@[i as int].name@);
                            }
                        }
                        assert forall|k: int| 0 <= k < new_tasks@.len() implies named_by_row(
                            rows@,
                            i + 1,
                            (#[trigger] new_tasks@[k]).name@,
                        ) by {
                            if k < pre.len() {
                                assert(new_tasks@[k] == pre[k]);
                                assert(named_by_row(rows@, i as int, pre[k].name@));
                                let a = choose|a: int|
                                    0 <= a < i && #[trigger] rows@[a].name@ == pre[k].name@;
                                assert(rows@[a].name@ == new_tasks@[k].name@);
                            } else {
                                assert(rows@[i as int].name@ == new_tasks@[k].name@);
                            }
                        }
                        assert forall|k: int| 0 <= k < new_tasks@.len() implies !has_name(
                            tasks@,
                            (#[trigger] new_tasks@[k]).name@,
                        ) by {
                            if k < pre.len() {
                                assert(new_tasks@[k] == pre[k]);
                            }
                        }
                        assert forall|k: int| 0 <= k < new_tasks@.len() implies (
                        #[trigger] new_tasks@[k]).wf() by {
                            if k < pre.len() {
                                assert(new_tasks@[k] == pre[k]);
                            }
                        }
                    }
                    u
                },
            },
        };
        proof {
            let all = tasks@ + new_tasks@;
            assert forall|x: int| 0 <= x < all_before.len() implies all[x] == all_before[x] by {
                if x < tasks@.len() {
                } else {
                    assert(all[x] == new_tasks@[x - tasks@.len()]);
                }
            }
            assert(named(all, rows@[i as int].name@, uid@));
            assert forall|a: int| 0 <= a < i implies named(
                all,
                rows@[a].name@,
                (#[trigger] recs@[a]).uid@,
            ) by {
                let k = choose|k: int|
                    0 <= k < all_before.len() && #[trigger] all_before[k].name@ == rows@[a].name@
                        && all_before[k].uid@ == recs@[a].uid@;
                assert(all[k] == all_before[k]);
            }
        }
        let ghost before = recs@;
        recs.push(TimeRecord { from, to, uid });
        proof {
            assert forall|a: int| 0 <= a < i implies recs@[a] == before[a] by {}
            assert forall|k: int| 0 <= k < new_tasks@.len() implies named_by_row(
                rows@,
                i + 1,
                (#[trigger] new_tasks@[k]).name@,
            ) by {
                if named_by_row(rows@, i as int, new_tasks@[k].name@) {
                    let a = choose|a: int|
                        0 <= a < i && #[trigger] rows@[a].name@ == new_tasks@[k].name@;
                    assert(rows@[a].name@ == new_tasks@[k].name@);
                }
            }
        }
        i = i + 1;
    }
    Ok((new_tasks, recs))
}

} // verus!

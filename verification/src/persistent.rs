//! What the assistant keeps about members: the work left at the start of a
//! day (as stored in a Redis list), and when members came in and left.

use crate::remote::CurrentTaskState;
use crate::text::{
    decimal, is_digit, lemma_decimal_digits, lemma_parse_decimal, parse_u32, parse_u32_spec, u64_to_decimal,
};
use vstd::prelude::*;
use vstd::string::StrSliceExecFns;

verus! {

/// A task left at the start of the day: its issue number and, when known,
/// its checklist progress (checked, total).
pub struct RemainingWork {
    pub issue_id: u32,
    pub progress: Option<(u32, u32)>,
}

/// How a remaining work is stored: `id:checked:total`, or `id` alone.
pub open spec fn work_repr(w: RemainingWork) -> Seq<char> {
    match w.progress {
        Some((c, t)) => decimal(w.issue_id as nat) + ":"@ + decimal(c as nat) + ":"@ + decimal(t as nat),
        None => decimal(w.issue_id as nat),
    }
}

/// The index of the first `:` at or after `from`.
pub open spec fn next_colon(s: Seq<char>, from: int) -> Option<int>
    decreases s.len() - from,
{
    if from < 0 || from >= s.len() {
        None
    } else if s[from] == ':' {
        Some(from)
    } else {
        next_colon(s, from + 1)
    }
}

/// What a stored text reads as: the issue number before the first `:`,
/// then, when there is a `:`, the checked and total counts in the next two
/// fields (anything after a third `:` is ignored). `None` where a field is
/// missing or is no number.
pub open spec fn work_parse_spec(s: Seq<char>) -> Option<RemainingWork> {
    match next_colon(s, 0) {
        None => match parse_u32_spec(s) {
            Some(id) => Some(RemainingWork { issue_id: id, progress: None }),
            None => None,
        },
        Some(i) => match next_colon(s, i + 1) {
            None => None,
            Some(j) => {
                let k = match next_colon(s, j + 1) {
                    Some(k) => k,
                    None => s.len() as int,
                };
                match (
                    parse_u32_spec(s.subrange(0, i)),
                    parse_u32_spec(s.subrange(i + 1, j)),
                    parse_u32_spec(s.subrange(j + 1, k)),
                ) {
                    (Some(id), Some(c), Some(t)) => Some(RemainingWork { issue_id: id, progress: Some((c, t)) }),
                    _ => None,
                }
            },
        },
    }
}

/// `next_colon` passes over a stretch without `:`.
proof fn lemma_colon_free(s: Seq<char>, from: int, to: int)
    requires
        0 <= from <= to <= s.len(),
        forall|k: int| from <= k < to ==> s[k] != ':',
    ensures
        next_colon(s, from) == next_colon(s, to),
    decreases to - from,
{
    if from < to {
        lemma_colon_free(s, from + 1, to);
    }
}

/// A decimal writing holds no `:`.
proof fn lemma_decimal_colon_free(n: nat)
    ensures
        forall|k: int| 0 <= k < decimal(n).len() ==> decimal(n)[k] != ':',
{
    lemma_decimal_digits(n);
    assert forall|k: int| 0 <= k < decimal(n).len() implies decimal(n)[k] != ':' by {
        assert(is_digit(decimal(n)[k]));
    }
}

/// A stored work reads back as itself.
pub proof fn law_repr_round_trip(w: RemainingWork)
    ensures
        work_parse_spec(work_repr(w)) == Some(w),
{
    let a = decimal(w.issue_id as nat);
    lemma_decimal_colon_free(w.issue_id as nat);
    lemma_parse_decimal(w.issue_id);
    match w.progress {
        None => {
            lemma_colon_free(a, 0, a.len() as int);
        },
        Some((c, t)) => {
            reveal_strlit(":");
            let cs = decimal(c as nat);
            let ts = decimal(t as nat);
            lemma_decimal_colon_free(c as nat);
            lemma_decimal_colon_free(t as nat);
            lemma_parse_decimal(c);
            lemma_parse_decimal(t);
            let s = work_repr(w);
            assert(s =~= a + seq![':'] + cs + seq![':'] + ts);
            let i = a.len() as int;
            let j = i + 1 + cs.len();
            assert forall|k: int| 0 <= k < i implies s[k] != ':' by {
                assert(s[k] == a[k]);
            }
            lemma_colon_free(s, 0, i);
            assert forall|k: int| i + 1 <= k < j implies s[k] != ':' by {
                assert(s[k] == cs[k - i - 1]);
            }
            lemma_colon_free(s, i + 1, j);
            assert forall|k: int| j + 1 <= k < s.len() implies s[k] != ':' by {
                assert(s[k] == ts[k - j - 1]);
            }
            lemma_colon_free(s, j + 1, s.len() as int);
            assert(s.subrange(0, i) =~= a);
            assert(s.subrange(i + 1, j) =~= cs);
            assert(s.subrange(j + 1, s.len() as int) =~= ts);
        },
    }
}

/// The index of the first `:` at or after `from`.
fn find_colon(s: &str, from: usize) -> (r: Option<usize>)
    requires
        from <= s@.len(),
    ensures
        match r {
            Some(i) => next_colon(s@, from as int) == Some(i as int),
            None => next_colon(s@, from as int) is None,
        },
        r matches Some(i) ==> from <= i < s@.len(),
{
    let n = s.unicode_len();
    let mut i = from;
    while i < n
        invariant
            n == s@.len(),
            from <= i <= n,
            next_colon(s@, from as int) == next_colon(s@, i as int),
        decreases n - i,
    {
        if s.get_char(i) == ':' {
            return Some(i);
        }
        i += 1;
    }
    None
}

impl RemainingWork {
    /// The stored text of the work.
    pub fn to_repr(&self) -> (r: String)
        ensures
            r@ == work_repr(*self),
    {
        let mut s = u64_to_decimal(self.issue_id as u64);
        match self.progress {
            Some((c, t)) => {
                s.append(":");
                let cs = u64_to_decimal(c as u64);
                s.append(cs.as_str());
                s.append(":");
                let ts = u64_to_decimal(t as u64);
                s.append(ts.as_str());
            },
            None => {},
        }
        s
    }

    /// The work that a stored text describes; `None` where a field is
    /// missing or is no number.
    pub fn from_repr(s: &str) -> (r: Option<RemainingWork>)
        ensures
            r == work_parse_spec(s@),
    {
        let n = s.unicode_len();
        match find_colon(s, 0) {
            None => match parse_u32(s) {
                Some(id) => Some(RemainingWork { issue_id: id, progress: None }),
                None => None,
            },
            Some(i) => match find_colon(s, i + 1) {
                None => None,
                Some(j) => {
                    let k = match find_colon(s, j + 1) {
                        Some(k) => k,
                        None => n,
                    };
                    let id = parse_u32(s.substring_char(0, i));
                    let c = parse_u32(s.substring_char(i + 1, j));
                    let t = parse_u32(s.substring_char(j + 1, k));
                    match (id, c, t) {
                        (Some(id), Some(c), Some(t)) => Some(RemainingWork { issue_id: id, progress: Some((c, t)) }),
                        _ => None,
                    }
                },
            },
        }
    }
}

/// The work recorded for a task at the start of the day (numbers are
/// stored in 32 bits, cut to their low bits).
pub open spec fn work_of_task(t: CurrentTaskState) -> RemainingWork {
    RemainingWork {
        issue_id: t.number as u32,
        progress: Some((t.progress.0 as u32, t.progress.1 as u32)),
    }
}

/// The works recorded for the tasks, in order.
pub fn remaining_works(tasks: &Vec<CurrentTaskState>) -> (r: Vec<RemainingWork>)
    ensures
        r@.len() == tasks@.len(),
        forall|i: int| 0 <= i < tasks@.len() ==> #[trigger] r@[i] == work_of_task(tasks@[i]),
{
    let mut out: Vec<RemainingWork> = Vec::new();
    let n = tasks.len();
    let mut i: usize = 0;
    while i < n
        invariant
            n == tasks@.len(),
            i <= n,
            out@.len() == i,
            forall|k: int| 0 <= k < i ==> #[trigger] out@[k] == work_of_task(tasks@[k]),
        decreases n - i,
    {
        let t = &tasks[i];
        let (a, b) = t.progress;
        out.push(RemainingWork { issue_id: t.number as u32, progress: Some((a as u32, b as u32)) });
        i += 1;
    }
    out
}

/// A moment: seconds since the Unix epoch, and nanoseconds within the
/// second.
pub struct Moment {
    pub secs: i64,
    pub nanos: u32,
}

/// Whether `a` comes after `b`.
pub open spec fn later(a: Moment, b: Moment) -> bool {
    a.secs > b.secs || (a.secs == b.secs && a.nanos > b.nanos)
}

/// When a member last came in, and last left.
pub struct UserLastTimes {
    pub itime: Moment,
    pub otime: Moment,
}

/// A member is at work when the last arrival comes after the last
/// departure.
pub open spec fn working(last: Option<UserLastTimes>) -> bool {
    last matches Some(t) && later(t.itime, t.otime)
}

/// Whether a member is at work: the last arrival comes after the last
/// departure. `last` is what the store holds of the member, if anything.
pub fn is_user_working(last: &Option<UserLastTimes>) -> (r: bool)
    ensures
        r == working(*last),
{
    match last {
        Some(t) => t.itime.secs > t.otime.secs || (t.itime.secs == t.otime.secs && t.itime.nanos > t.otime.nanos),
        None => false,
    }
}

/// A time of day: seconds since midnight, and nanoseconds within the
/// second.
pub struct TimeOfDay {
    pub secs: u32,
    pub nanos: u32,
}

/// A member, with the times at which the working day begins and ends.
pub struct UserIotimes {
    pub github_id: i32,
    pub slack_id: String,
    pub github_login: String,
    pub intime: TimeOfDay,
    pub outtime: TimeOfDay,
}

} // verus!

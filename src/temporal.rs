use vstd::prelude::*;
use crate::error::Error;
use crate::expr::{text_of, Expr, ExprV, lemma_expr_views};
use crate::text::{chars_of, push_str, string_of, str_is};

verus! {

/// Nanoseconds in a day, less one: the end of a date's range after its midnight.
pub const SHY_OF_A_DAY: i128 = 86_399_999_999_999;

/// The instant that jiff reads in `s`, in nanoseconds since the Unix epoch (UTC).
pub uninterp spec fn timestamp_nanos(s: Seq<char>) -> Option<i128>;

/// Relies on jiff's `Timestamp::from_str` and `Timestamp::as_nanosecond`: the instant written
/// in `s` (RFC 3339 with an offset or `Z`), as nanoseconds since the epoch.
#[verifier::external_body]
pub fn parse_timestamp(s: &str) -> (r: Option<i128>)
    ensures
        r == timestamp_nanos(s@),
{
    s.parse::<jiff::Timestamp>().ok().map(|t| t.as_nanosecond())
}

/// A range of instants, both ends included, in nanoseconds since the epoch.
#[derive(Clone, Copy, Debug, PartialEq, Eq, Structural)]
pub struct DateRange {
    /// Start of the range.
    pub start: i128,
    /// End of the range.
    pub end: i128,
}

/// How two ranges are ordered: equal where both ends match, less where one ends before the
/// other starts, greater where it starts after the other ends, unordered where they overlap.
pub open spec fn range_order(a: DateRange, b: DateRange) -> Option<core::cmp::Ordering> {
    if a == b {
        Some(core::cmp::Ordering::Equal)
    } else if a.end < b.start {
        Some(core::cmp::Ordering::Less)
    } else if a.start > b.end {
        Some(core::cmp::Ordering::Greater)
    } else {
        None
    }
}

impl PartialOrd for DateRange {
    fn partial_cmp(&self, other: &DateRange) -> (r: Option<core::cmp::Ordering>)
        ensures
            r == range_order(*self, *other),
    {
        if self.start == other.start && self.end == other.end {
            Some(core::cmp::Ordering::Equal)
        } else if self.end < other.start {
            Some(core::cmp::Ordering::Less)
        } else if self.start > other.end {
            Some(core::cmp::Ordering::Greater)
        } else {
            None
        }
    }
}

impl vstd::std_specs::cmp::PartialOrdSpecImpl for DateRange {
    open spec fn obeys_partial_cmp_spec() -> bool {
        true
    }

    open spec fn partial_cmp_spec(&self, other: &DateRange) -> Option<core::cmp::Ordering> {
        range_order(*self, *other)
    }
}

/// `s` without one pair of surrounding single or double quotes.
pub open spec fn unquoted(s: Seq<char>) -> Seq<char> {
    if s.len() >= 2 && ((s[0] == '"' && s.last() == '"') || (s[0] == '\'' && s.last() == '\'')) {
        s.subrange(1, s.len() - 1)
    } else {
        s
    }
}

/// `s` with each space turned into `T`.
pub open spec fn spaces_to_t(s: Seq<char>) -> Seq<char> {
    s.map_values(|c: char|
        if c == ' ' {
            'T'
        } else {
            c
        })
}

/// A short timestamp (`YYYY`, `YYYY-MM`, `YYYY-MM-DD`, `YYYY-MM-DDTHH`, `YYYY-MM-DDTHH:MM`,
/// `YYYY-MM-DDTHH:MM:SS`) padded to a full UTC timestamp; other lengths are left as they are.
pub open spec fn padded_timestamp(s: Seq<char>) -> Seq<char> {
    let t = spaces_to_t(unquoted(s));
    if t.len() == 4 {
        t + "-01-01T00:00:00Z"@
    } else if t.len() == 7 {
        t + "-01T00:00:00Z"@
    } else if t.len() == 10 {
        t + "T00:00:00Z"@
    } else if t.len() == 13 {
        t + ":00:00Z"@
    } else if t.len() == 16 {
        t + ":00Z"@
    } else if t.len() == 19 {
        t + "Z"@
    } else {
        t
    }
}

/// The instant of a timestamp text, padded where it is short.
pub open spec fn instant_of(s: Seq<char>) -> Option<i128> {
    timestamp_nanos(padded_timestamp(s))
}

/// The range that a temporal expression covers: an interval from its start to its end, a
/// timestamp or a string at one instant, a date from its midnight to the last nanosecond of
/// the day.
pub open spec fn date_range_of(e: ExprV) -> Option<DateRange> {
    match e {
        ExprV::Interval { interval } => {
            if interval.len() != 2 {
                None
            } else {
                match (text_of(interval[0]), text_of(interval[1])) {
                    (Some(a), Some(b)) => match (instant_of(a), instant_of(b)) {
                        (Some(s), Some(t)) => Some(DateRange { start: s, end: t }),
                        _ => None,
                    },
                    _ => None,
                }
            }
        },
        ExprV::Timestamp { timestamp } => match text_of(*timestamp) {
            Some(a) => match instant_of(a) {
                Some(s) => Some(DateRange { start: s, end: s }),
                None => None,
            },
            None => None,
        },
        ExprV::Date { date } => match text_of(*date) {
            Some(a) => match instant_of(a) {
                Some(s) => if s <= i128::MAX - SHY_OF_A_DAY {
                    Some(DateRange { start: s, end: (s + SHY_OF_A_DAY) as i128 })
                } else {
                    None
                },
                None => None,
            },
            None => None,
        },
        ExprV::Literal(v) => match instant_of(v) {
            Some(s) => Some(DateRange { start: s, end: s }),
            None => None,
        },
        _ => None,
    }
}

/// The primitive relation that a temporal operator stands for, and whether its arguments
/// are swapped for it.
pub open spec fn temporal_primitive(op: Seq<char>) -> (Seq<char>, bool) {
    if op == "t_after"@ {
        ("t_before"@, true)
    } else if op == "t_metby"@ {
        ("t_meets"@, true)
    } else if op == "t_overlappedby"@ {
        ("t_overlaps"@, true)
    } else if op == "t_startedby"@ {
        ("t_starts"@, true)
    } else if op == "t_contains"@ {
        ("t_during"@, true)
    } else if op == "t_finishedby"@ {
        ("t_finishes"@, true)
    } else {
        (op, false)
    }
}

/// Allen's primitive relations, and disjointness and intersection, between two ranges.
pub open spec fn primitive_relation(op: Seq<char>, l: DateRange, r: DateRange) -> Option<bool> {
    if op == "t_before"@ {
        Some(l.end < r.start)
    } else if op == "t_meets"@ {
        Some(l.end == r.start)
    } else if op == "t_overlaps"@ {
        Some(l.start < r.end && r.start < l.end && l.end < r.end)
    } else if op == "t_starts"@ {
        Some(l.start == r.start && l.end < r.end)
    } else if op == "t_during"@ {
        Some(l.start > r.start && l.end < r.end)
    } else if op == "t_finishes"@ {
        Some(l.start > r.start && l.end == r.end)
    } else if op == "t_equals"@ {
        Some(l.start == r.start && l.end == r.end)
    } else if op == "t_disjoint"@ {
        Some(!(l.start <= r.end && l.end >= r.start))
    } else if op == "t_intersects"@ || op == "anyinteracts"@ {
        Some(l.start <= r.end && l.end >= r.start)
    } else {
        None
    }
}

/// The temporal operator `op` between two ranges; `None` for an operator it does not know.
pub open spec fn temporal_relation(op: Seq<char>, l: DateRange, r: DateRange) -> Option<bool> {
    let (p, swap) = temporal_primitive(op);
    if swap {
        primitive_relation(p, r, l)
    } else {
        primitive_relation(p, l, r)
    }
}

/// The temporal operator `op` between two expressions, where both cover a range.
pub open spec fn temporal_value(op: Seq<char>, l: ExprV, r: ExprV) -> Option<bool> {
    match (date_range_of(l), date_range_of(r)) {
        (Some(a), Some(b)) => temporal_relation(op, a, b),
        _ => None,
    }
}

/// Removes one pair of surrounding quotes.
pub fn strip_quotes(s: &Vec<char>) -> (r: Vec<char>)
    ensures
        r@ == unquoted(s@),
{
    let n = s.len();
    if n >= 2 && ((s[0] == '"' && s[n - 1] == '"') || (s[0] == '\'' && s[n - 1] == '\'')) {
        let mut out: Vec<char> = Vec::new();
        let mut i: usize = 1;
        while i < n - 1
            invariant
                1 <= i <= n - 1,
                n == s.len(),
                out@ == s@.subrange(1, i as int),
            decreases n - 1 - i,
        {
            out.push(s[i]);
            i = i + 1;
            assert(out@ =~= s@.subrange(1, i as int));
        }
        out
    } else {
        let mut out: Vec<char> = Vec::new();
        crate::text::push_chars(&mut out, s);
        assert(out@ =~= s@);
        out
    }
}

/// Pads a short timestamp text to a full one.
pub fn pad_timestamp(s: &Vec<char>) -> (r: Vec<char>)
    ensures
        r@ == padded_timestamp(s@),
{
    let u = strip_quotes(s);
    let mut t: Vec<char> = Vec::new();
    let mut i: usize = 0;
    while i < u.len()
        invariant
            i <= u.len(),
            t@ == spaces_to_t(u@.subrange(0, i as int)),
        decreases u.len() - i,
    {
        let c = u[i];
        t.push(
            if c == ' ' {
                'T'
            } else {
                c
            },
        );
        i = i + 1;
        assert(t@ =~= spaces_to_t(u@.subrange(0, i as int)));
    }
    assert(u@.subrange(0, u.len() as int) =~= u@);
    let n = t.len();
    if n == 4 {
        push_str(&mut t, "-01-01T00:00:00Z");
    } else if n == 7 {
        push_str(&mut t, "-01T00:00:00Z");
    } else if n == 10 {
        push_str(&mut t, "T00:00:00Z");
    } else if n == 13 {
        push_str(&mut t, ":00:00Z");
    } else if n == 16 {
        push_str(&mut t, ":00Z");
    } else if n == 19 {
        push_str(&mut t, "Z");
    }
    t
}

/// The instant of a timestamp text, padded where it is short.
pub fn instant(s: &Vec<char>) -> (r: Option<i128>)
    ensures
        r == instant_of(s@),
{
    let p = pad_timestamp(s);
    let ps = string_of(&p);
    parse_timestamp(ps.as_str())
}

impl DateRange {
    /// The range that a temporal expression covers; a coercion error for any other
    /// expression or a text that is no timestamp.
    pub fn from_expr(e: &Expr) -> (r: Result<DateRange, Error>)
        ensures
            r matches Ok(d) ==> date_range_of(e@) == Some(d),
            r is Err ==> date_range_of(e@) is None,
            !(e@ is Interval || e@ is Timestamp || e@ is Date || e@ is Literal) ==> r matches Err(
                Error::Coercion(_),
            ),
    {
        match e {
            Expr::Interval { interval } => {
                proof {
                    lemma_expr_views(interval@);
                }
                if interval.len() != 2 {
                    return Err(Error::Coercion(String::new()));
                }
                let a = interval[0].text_chars()?;
                let b = interval[1].text_chars()?;
                match (instant(&a), instant(&b)) {
                    (Some(s), Some(t)) => Ok(DateRange { start: s, end: t }),
                    _ => Err(Error::ParseTimestamp(string_of(&a))),
                }
            },
            Expr::Timestamp { timestamp } => {
                let a = timestamp.text_chars()?;
                match instant(&a) {
                    Some(s) => Ok(DateRange { start: s, end: s }),
                    None => Err(Error::ParseTimestamp(string_of(&a))),
                }
            },
            Expr::Date { date } => {
                let a = date.text_chars()?;
                match instant(&a) {
                    Some(s) => {
                        if s > i128::MAX - SHY_OF_A_DAY {
                            return Err(Error::ParseTimestamp(string_of(&a)));
                        }
                        Ok(DateRange { start: s, end: s + SHY_OF_A_DAY })
                    },
                    None => Err(Error::ParseTimestamp(string_of(&a))),
                }
            },
            Expr::Literal(v) => {
                let a = chars_of(v.as_str());
                match instant(&a) {
                    Some(s) => Ok(DateRange { start: s, end: s }),
                    None => Err(Error::ParseTimestamp(v.clone())),
                }
            },
            _ => Err(Error::Coercion(String::new())),
        }
    }
}

/// Allen's primitive relations between two ranges, and disjointness and intersection.
fn primitive(op: &str, l: DateRange, r: DateRange) -> (b: Option<bool>)
    ensures
        b == primitive_relation(op@, l, r),
{
    if str_is(op, "t_before") {
        Some(l.end < r.start)
    } else if str_is(op, "t_meets") {
        Some(l.end == r.start)
    } else if str_is(op, "t_overlaps") {
        Some(l.start < r.end && r.start < l.end && l.end < r.end)
    } else if str_is(op, "t_starts") {
        Some(l.start == r.start && l.end < r.end)
    } else if str_is(op, "t_during") {
        Some(l.start > r.start && l.end < r.end)
    } else if str_is(op, "t_finishes") {
        Some(l.start > r.start && l.end == r.end)
    } else if str_is(op, "t_equals") {
        Some(l.start == r.start && l.end == r.end)
    } else if str_is(op, "t_disjoint") {
        Some(!(l.start <= r.end && l.end >= r.start))
    } else if str_is(op, "t_intersects") || str_is(op, "anyinteracts") {
        Some(l.start <= r.end && l.end >= r.start)
    } else {
        None
    }
}

/// The temporal operator `op` between two ranges: the inverse relations swap their
/// arguments and use the primitive one.
pub fn temporal_relation_exec(op: &str, l: DateRange, r: DateRange) -> (b: Option<bool>)
    ensures
        b == temporal_relation(op@, l, r),
{
    if str_is(op, "t_after") {
        primitive("t_before", r, l)
    } else if str_is(op, "t_metby") {
        primitive("t_meets", r, l)
    } else if str_is(op, "t_overlappedby") {
        primitive("t_overlaps", r, l)
    } else if str_is(op, "t_startedby") {
        primitive("t_starts", r, l)
    } else if str_is(op, "t_contains") {
        primitive("t_during", r, l)
    } else if str_is(op, "t_finishedby") {
        primitive("t_finishes", r, l)
    } else {
        primitive(op, l, r)
    }
}

/// Runs a temporal operation on two expressions: the boolean literal of the relation, or an
/// error where a side is not temporal or the operator is unknown.
pub fn temporal_op(left: &Expr, right: &Expr, op: &str) -> (r: Result<Expr, Error>)
    ensures
        r matches Ok(x) ==> temporal_value(op@, left@, right@) matches Some(b) && x@
            == ExprV::Bool(b),
        r is Err ==> temporal_value(op@, left@, right@) is None,
{
    let l = DateRange::from_expr(left)?;
    let rr = DateRange::from_expr(right)?;
    match temporal_relation_exec(op, l, rr) {
        Some(b) => Ok(Expr::Bool(b)),
        None => Err(Error::OpNotImplemented(op.to_owned())),
    }
}

} // verus!

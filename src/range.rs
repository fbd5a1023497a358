use vstd::prelude::*;

use crate::text::{
    decimal, decimal_string, find_first, first_index_of, lemma_decimal_digits,
    lemma_first_index_after, lemma_parse_decimal, parse_u64, parse_u64_spec,
    starts_with_chars, str_chars, string_of_chars, sub_chars,
};

verus! {

/// How a request for a stored object of `total` bytes is answered.
#[derive(Clone, Copy, Debug, PartialEq, Eq, Structural)]
pub enum RangeDecision {
    /// The whole object, with status 200.
    Full { total: u64 },
    /// Bytes `start..=end`, with status 206.
    Partial { start: u64, end: u64, total: u64 },
    /// Status 416.
    NotSatisfiable { total: u64 },
}

pub open spec fn bytes_prefix() -> Seq<char> {
    seq!['b', 'y', 't', 'e', 's', '=']
}

/// A bound of a range: the parsed number, or `default` when it is absent or
/// does not parse.
pub open spec fn bound_or(s: Seq<char>, default: u64) -> u64 {
    match parse_u64_spec(s) {
        Some(v) => v,
        None => default,
    }
}

/// The answer for a `Range` header (if any) on an object of `total` bytes.
/// Only `bytes=<start>-<end>` is read, either bound may be left out, and the
/// end is clamped to the last byte.
pub open spec fn range_spec(header: Option<Seq<char>>, total: u64) -> RangeDecision {
    match header {
        None => RangeDecision::Full { total },
        Some(h) => if !(bytes_prefix().len() <= h.len() && h.subrange(0, 6) == bytes_prefix()) {
            RangeDecision::Full { total }
        } else if total == 0 {
            RangeDecision::NotSatisfiable { total }
        } else {
            let rest = h.subrange(6, h.len() as int);
            let last = (total - 1) as u64;
            match first_index_of(rest, '-') {
                None => RangeDecision::Partial { start: 0, end: last, total },
                Some(d) => {
                    let start = bound_or(rest.subrange(0, d), 0);
                    let end_raw = bound_or(rest.subrange(d + 1, rest.len() as int), last);
                    let end = if end_raw > last { last } else { end_raw };
                    if start > end {
                        RangeDecision::NotSatisfiable { total }
                    } else {
                        RangeDecision::Partial { start, end, total }
                    }
                },
            }
        },
    }
}

fn bound(s: &Vec<char>, from: usize, to: usize, default: u64) -> (r: u64)
    requires
        from <= to <= s@.len(),
    ensures
        r == bound_or(s@.subrange(from as int, to as int), default),
{
    let seg = string_of_chars(sub_chars(s, from, to).as_slice());
    match parse_u64(seg.as_str()) {
        Some(v) => v,
        None => default,
    }
}

/// Decides how to answer a request with the given `Range` header.
pub fn decide_range(header: Option<&str>, total: u64) -> (r: RangeDecision)
    ensures
        r == range_spec(
            match header {
                Some(h) => Some(h@),
                None => None,
            },
            total,
        ),
{
    let h = match header {
        None => return RangeDecision::Full { total },
        Some(h) => h,
    };
    let cs = str_chars(h);
    let prefix: Vec<char> = vec!['b', 'y', 't', 'e', 's', '='];
    if !starts_with_chars(&cs, &prefix) {
        return RangeDecision::Full { total };
    }
    if total == 0 {
        return RangeDecision::NotSatisfiable { total };
    }
    let rest = sub_chars(&cs, 6, cs.len());
    let last = total - 1;
    match find_first(&rest, '-') {
        None => RangeDecision::Partial { start: 0, end: last, total },
        Some(d) => {
            let start = bound(&rest, 0, d, 0);
            let end_raw = bound(&rest, d + 1, rest.len(), last);
            let end = if end_raw > last { last } else { end_raw };
            if start > end {
                RangeDecision::NotSatisfiable { total }
            } else {
                RangeDecision::Partial { start, end, total }
            }
        },
    }
}

impl RangeDecision {
    pub open spec fn status_spec(self) -> u16 {
        match self {
            RangeDecision::Full { .. } => 200,
            RangeDecision::Partial { .. } => 206,
            RangeDecision::NotSatisfiable { .. } => 416,
        }
    }

    /// The HTTP status of the answer.
    pub fn status(&self) -> (r: u16)
        ensures
            r == self.status_spec(),
    {
        match self {
            RangeDecision::Full { .. } => 200,
            RangeDecision::Partial { .. } => 206,
            RangeDecision::NotSatisfiable { .. } => 416,
        }
    }

    /// How many bytes of the object the answer carries.
    pub fn body_len(&self) -> (r: u64)
        requires
            *self matches RangeDecision::Partial { start, end, .. } ==> start <= end < u64::MAX,
        ensures
            r == match *self {
                RangeDecision::Full { total } => total as int,
                RangeDecision::Partial { start, end, .. } => end - start + 1,
                RangeDecision::NotSatisfiable { .. } => 0,
            },
    {
        match self {
            RangeDecision::Full { total } => *total,
            RangeDecision::Partial { start, end, .. } => *end - *start + 1,
            RangeDecision::NotSatisfiable { .. } => 0,
        }
    }
}

/// `bytes <start>-<end>/<total>`.
pub open spec fn content_range_spec(start: u64, end: u64, total: u64) -> Seq<char> {
    seq!['b', 'y', 't', 'e', 's', ' '] + decimal(start as nat) + seq!['-'] + decimal(end as nat)
        + seq!['/'] + decimal(total as nat)
}

/// The `Content-Range` value of a partial answer.
pub fn content_range(start: u64, end: u64, total: u64) -> (r: String)
    ensures
        r@ == content_range_spec(start, end, total),
{
    let mut out = string_of_chars(vec!['b', 'y', 't', 'e', 's', ' '].as_slice());
    out.append(decimal_string(start).as_str());
    out.append(string_of_chars(vec!['-'].as_slice()).as_str());
    out.append(decimal_string(end).as_str());
    out.append(string_of_chars(vec!['/'].as_slice()).as_str());
    out.append(decimal_string(total).as_str());
    out
}

/// A header `bytes=<start>-<end>` on a non-empty object: the end is clamped
/// to the last byte, and the answer is the partial range when the start does
/// not pass the clamped end, else "not satisfiable"; with no header, the whole
/// object.
pub proof fn lemma_range_answer(start: u64, end: u64, total: u64)
    requires
        total > 0,
    ensures
        ({
            let h = bytes_prefix() + decimal(start as nat) + seq!['-'] + decimal(end as nat);
            let clamped = if end >= total { (total - 1) as u64 } else { end };
            range_spec(Some(h), total) == if start <= clamped {
                RangeDecision::Partial { start, end: clamped, total }
            } else {
                RangeDecision::NotSatisfiable { total }
            }
        }),
        range_spec(None, total) == (RangeDecision::Full { total }),
{
    let ds = decimal(start as nat);
    let de = decimal(end as nat);
    let h = bytes_prefix() + ds + seq!['-'] + de;
    lemma_decimal_digits(start as nat);
    lemma_parse_decimal(start);
    lemma_parse_decimal(end);
    assert(h.subrange(0, 6) =~= bytes_prefix());
    let rest = h.subrange(6, h.len() as int);
    assert(rest =~= ds.push('-') + de);
    lemma_first_index_after(ds, '-', de);
    assert(rest.subrange(0, ds.len() as int) =~= ds);
    assert(rest.subrange(ds.len() as int + 1, rest.len() as int) =~= de);
}

} // verus!

use vstd::prelude::*;

use crate::model::{AddressRange, AttrValue, DebugEntry, RangesAttr, ranges_ordered};

verus! {

/// The span described by a low-address attribute and a high-address-or-length attribute.
pub open spec fn pair_size(low: AttrValue, high: AttrValue) -> Option<int> {
    match low {
        AttrValue::Addr(l) => match high {
            AttrValue::Addr(h) => Some(h - l),
            AttrValue::Udata(len) => Some(len as int),
            AttrValue::Other => None,
        },
        _ => None,
    }
}

/// Sum of `end - begin` over the ranges.
pub open spec fn ranges_total(rs: Seq<AddressRange>) -> int
    decreases rs.len(),
{
    if rs.len() == 0 {
        0
    } else {
        ranges_total(rs.drop_last()) + (rs.last().end - rs.last().begin)
    }
}

/// The byte count an entry maps directly: from its address ranges where it has them, else
/// from its low and high addresses; `None` where it describes no code.
pub open spec fn mapped_size(e: DebugEntry) -> Option<int> {
    match e.ranges {
        Some(RangesAttr::List(rs)) => Some(ranges_total(rs@)),
        Some(RangesAttr::Other) => None,
        None => match (e.low_pc, e.high_pc) {
            (Some(l), Some(h)) => pair_size(l, h),
            _ => None,
        },
    }
}

/// What the size extractor finds for one entry.
#[derive(Clone, Copy, Debug, PartialEq, Eq)]
pub enum MappedSize {
    /// The entry carries no address information.
    NotApplicable,
    Bytes(u64),
    /// The span is negative or does not fit in a `u64`.
    OutOfRange,
}

pub open spec fn classify(s: Option<int>) -> MappedSize {
    match s {
        None => MappedSize::NotApplicable,
        Some(v) => if 0 <= v <= u64::MAX {
            MappedSize::Bytes(v as u64)
        } else {
            MappedSize::OutOfRange
        },
    }
}

/// Size from a (low, high) attribute pair: `high - low` for an address, the length itself
/// for a constant.
pub fn unpack_size(low: &AttrValue, high: &AttrValue) -> (r: MappedSize)
    ensures
        r == classify(pair_size(*low, *high)),
{
    match low {
        AttrValue::Addr(l) => match high {
            AttrValue::Addr(h) => if *h >= *l {
                MappedSize::Bytes(*h - *l)
            } else {
                MappedSize::OutOfRange
            },
            AttrValue::Udata(len) => MappedSize::Bytes(*len),
            AttrValue::Other => MappedSize::NotApplicable,
        },
        _ => MappedSize::NotApplicable,
    }
}

proof fn lemma_ranges_prefix(rs: Seq<AddressRange>, j: int)
    requires
        0 <= j <= rs.len(),
        ranges_ordered(rs),
    ensures
        0 <= ranges_total(rs.subrange(0, j)) <= ranges_total(rs),
        j > 0 ==> ranges_total(rs.subrange(0, j)) == ranges_total(rs.subrange(0, j - 1)) + (
        rs[j - 1].end - rs[j - 1].begin),
    decreases rs.len(),
{
    if j > 0 {
        assert(rs.subrange(0, j).drop_last() =~= rs.subrange(0, j - 1));
    }
    if j < rs.len() {
        assert(rs.drop_last().subrange(0, j) =~= rs.subrange(0, j));
        lemma_ranges_prefix(rs.drop_last(), j);
    } else {
        assert(rs.subrange(0, j) =~= rs);
        if j > 0 {
            lemma_ranges_prefix(rs.drop_last(), j - 1);
            assert(rs.drop_last() =~= rs.subrange(0, j - 1));
        }
    }
}

/// The byte span an entry claims directly.
pub fn entry_mapped_size(e: &DebugEntry) -> (r: MappedSize)
    requires
        e.ranges matches Some(RangesAttr::List(rs)) ==> ranges_ordered(rs@),
    ensures
        r == classify(mapped_size(*e)),
{
    match &e.ranges {
        Some(RangesAttr::List(rs)) => {
            let n = rs.len();
            let mut sum: u64 = 0;
            let mut j: usize = 0;
            while j < n
                invariant
                    n == rs@.len(),
                    e.ranges == Some(RangesAttr::List(*rs)),
                    ranges_ordered(rs@),
                    j <= n,
                    sum == ranges_total(rs@.subrange(0, j as int)),
                decreases n - j,
            {
                proof {
                    lemma_ranges_prefix(rs@, j + 1);
                }
                let span = rs[j].end - rs[j].begin;
                if span > u64::MAX - sum {
                    assert(ranges_total(rs@.subrange(0, j + 1)) > u64::MAX);
                    assert(ranges_total(rs@) > u64::MAX);
                    return MappedSize::OutOfRange;
                }
                sum = sum + span;
                j = j + 1;
            }
            assert(rs@.subrange(0, n as int) =~= rs@);
            MappedSize::Bytes(sum)
        },
        Some(RangesAttr::Other) => MappedSize::NotApplicable,
        None => match (&e.low_pc, &e.high_pc) {
            (Some(l), Some(h)) => unpack_size(l, h),
            _ => MappedSize::NotApplicable,
        },
    }
}

} // verus!

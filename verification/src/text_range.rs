use vstd::prelude::*;
use crate::text_size::TextSize;
use std::cmp::Ordering;

verus! {

/// A range of UTF-8 byte offsets, `start` included and `end` excluded.
#[derive(Copy, Clone, Debug, Eq, PartialEq, Structural, Hash)]
pub struct TextRange {
    pub start: TextSize,
    pub end: TextSize,
}

impl TextRange {
    /// The range does not run backwards.
    pub open spec fn wf(self) -> bool {
        self.start.raw <= self.end.raw
    }

    pub open spec fn spec_contains(self, offset: nat) -> bool {
        self.start.raw <= offset < self.end.raw
    }

    pub fn new(start: TextSize, end: TextSize) -> (r: TextRange)
        requires
            start.raw <= end.raw,
        ensures
            r.start == start,
            r.end == end,
            r.wf(),
    {
        TextRange { start, end }
    }

    /// The range of `len` bytes that starts at `offset`.
    pub fn at(offset: TextSize, len: TextSize) -> (r: TextRange)
        requires
            offset.raw + len.raw <= u32::MAX,
        ensures
            r.start == offset,
            r.end.raw == offset.raw + len.raw,
            r.wf(),
    {
        TextRange::new(offset, TextSize::new(offset.raw + len.raw))
    }

    pub fn empty(offset: TextSize) -> (r: TextRange)
        ensures
            r.start == offset,
            r.end == offset,
    {
        TextRange::new(offset, offset)
    }

    pub fn up_to(end: TextSize) -> (r: TextRange)
        ensures
            r.start.raw == 0,
            r.end == end,
    {
        TextRange::new(TextSize::new(0), end)
    }

    pub fn start(self) -> (r: TextSize)
        ensures
            r == self.start,
    {
        self.start
    }

    pub fn end(self) -> (r: TextSize)
        ensures
            r == self.end,
    {
        self.end
    }

    pub fn is_empty(self) -> (r: bool)
        ensures
            r == (self.start.raw == self.end.raw),
    {
        self.start().raw == self.end().raw
    }

    pub fn len(self) -> (r: TextSize)
        requires
            self.wf(),
        ensures
            r.raw == self.end.raw - self.start.raw,
    {
        TextSize { raw: self.end().raw - self.start().raw }
    }

    pub fn contains(self, offset: TextSize) -> (r: bool)
        ensures
            r == self.spec_contains(offset.raw as nat),
    {
        self.start().raw <= offset.raw && offset.raw < self.end().raw
    }

    pub fn contains_inclusive(self, offset: TextSize) -> (r: bool)
        ensures
            r == (self.start.raw <= offset.raw <= self.end.raw),
    {
        self.start().raw <= offset.raw && offset.raw <= self.end().raw
    }

    /// Whether `other` lies within `self`.
    pub fn containts_range(self, other: TextRange) -> (r: bool)
        ensures
            r == (self.start.raw <= other.start.raw && other.end.raw <= self.end.raw),
    {
        self.start().raw <= other.start().raw && other.end().raw <= self.end().raw
    }

    /// The larger of the two starts and the smaller of the two ends.
    pub open spec fn spec_overlap(self, other: TextRange) -> (TextSize, TextSize) {
        (
            if self.start.raw >= other.start.raw { self.start } else { other.start },
            if self.end.raw <= other.end.raw { self.end } else { other.end },
        )
    }

    fn overlap(self, other: TextRange) -> (r: (TextSize, TextSize))
        ensures
            r == self.spec_overlap(other),
    {
        let lo = if self.start().raw >= other.start().raw { self.start() } else { other.start() };
        let hi = if self.end().raw <= other.end().raw { self.end() } else { other.end() };
        (lo, hi)
    }

    /// The range covered by both `self` and `other`, if they meet.
    pub fn get_intersection(self, other: TextRange) -> (r: Option<TextRange>)
        ensures
            ({
                let (lo, hi) = self.spec_overlap(other);
                &&& lo.raw > hi.raw ==> r is None
                &&& lo.raw <= hi.raw ==> r == Some(TextRange { start: lo, end: hi })
            }),
    {
        let (lo, hi) = self.overlap(other);
        if lo.raw > hi.raw {
            return None;
        }
        Some(TextRange::new(lo, hi))
    }

    /// The range from the larger start to the smaller end; the two ranges must meet.
    pub fn cover(self, other: TextRange) -> (r: TextRange)
        requires
            self.spec_overlap(other).0.raw <= self.spec_overlap(other).1.raw,
        ensures
            r.start == self.spec_overlap(other).0,
            r.end == self.spec_overlap(other).1,
    {
        let (lo, hi) = self.overlap(other);
        TextRange::new(lo, hi)
    }

    pub fn cover_offset(self, offset: TextSize) -> (r: TextRange)
        requires
            self.start.raw <= offset.raw <= self.end.raw,
        ensures
            r == TextRange::empty_range(offset),
    {
        self.cover(TextRange::empty(offset))
    }

    pub open spec fn empty_range(offset: TextSize) -> TextRange {
        TextRange { start: offset, end: offset }
    }

    /// `Less` when `self` ends before `other` starts, `Greater` when `other` ends
    /// before `self` starts, and `Equal` when they overlap.
    pub fn ordering(self, other: TextRange) -> (r: Ordering)
        ensures
            self.end.raw <= other.start.raw ==> r == Ordering::Less,
            !(self.end.raw <= other.start.raw) && other.end.raw <= self.start.raw ==> r
                == Ordering::Greater,
            !(self.end.raw <= other.start.raw) && !(other.end.raw <= self.start.raw) ==> r
                == Ordering::Equal,
    {
        if self.end().raw <= other.start().raw {
            Ordering::Less
        } else if other.end().raw <= self.start().raw {
            Ordering::Greater
        } else {
            Ordering::Equal
        }
    }

    pub fn sub_start(self, amount: TextSize) -> (r: TextRange)
        requires
            amount.raw <= self.start.raw,
            self.start.raw - amount.raw <= self.end.raw,
        ensures
            r.start.raw == self.start.raw - amount.raw,
            r.end == self.end,
    {
        TextRange::new(TextSize::new(self.start().raw - amount.raw), self.end())
    }

    pub fn add_start(self, amount: TextSize) -> (r: TextRange)
        requires
            self.start.raw + amount.raw <= self.end.raw,
        ensures
            r.start.raw == self.start.raw + amount.raw,
            r.end == self.end,
    {
        TextRange::new(TextSize::new(self.start().raw + amount.raw), self.end())
    }

    pub fn sub_end(self, amount: TextSize) -> (r: TextRange)
        requires
            amount.raw <= self.end.raw,
            self.start.raw <= self.end.raw - amount.raw,
        ensures
            r.start == self.start,
            r.end.raw == self.end.raw - amount.raw,
    {
        TextRange::new(self.start(), TextSize::new(self.end().raw - amount.raw))
    }

    pub fn add_end(self, amount: TextSize) -> (r: TextRange)
        requires
            self.end.raw + amount.raw <= u32::MAX,
            self.start.raw <= self.end.raw + amount.raw,
        ensures
            r.start == self.start,
            r.end.raw == self.end.raw + amount.raw,
    {
        TextRange::new(self.start(), TextSize::new(self.end().raw + amount.raw))
    }

    /// Both ends moved up by `amount`, or `None` when either would overflow.
    pub fn checked_add(self, amount: TextSize) -> (r: Option<TextRange>)
        requires
            self.start.raw + amount.raw <= u32::MAX && self.end.raw + amount.raw <= u32::MAX
                ==> self.wf(),
        ensures
            self.start.raw + amount.raw <= u32::MAX && self.end.raw + amount.raw <= u32::MAX
                ==> r == Some(
                TextRange {
                    start: TextSize { raw: (self.start.raw + amount.raw) as u32 },
                    end: TextSize { raw: (self.end.raw + amount.raw) as u32 },
                },
            ),
            !(self.start.raw + amount.raw <= u32::MAX && self.end.raw + amount.raw <= u32::MAX)
                ==> r is None,
    {
        let start = match self.start().checked_add(amount) {
            Some(s) => s,
            None => return None,
        };
        let end = match self.end().checked_add(amount) {
            Some(e) => e,
            None => return None,
        };
        Some(TextRange::new(start, end))
    }

    /// Both ends moved down by `amount`, or `None` when either would go below zero.
    pub fn checked_sub(self, amount: TextSize) -> (r: Option<TextRange>)
        requires
            amount.raw <= self.start.raw && amount.raw <= self.end.raw ==> self.wf(),
        ensures
            amount.raw <= self.start.raw && amount.raw <= self.end.raw ==> r == Some(
                TextRange {
                    start: TextSize { raw: (self.start.raw - amount.raw) as u32 },
                    end: TextSize { raw: (self.end.raw - amount.raw) as u32 },
                },
            ),
            !(amount.raw <= self.start.raw && amount.raw <= self.end.raw) ==> r is None,
    {
        let start = match self.start().checked_sub(amount) {
            Some(s) => s,
            None => return None,
        };
        let end = match self.end.checked_sub(amount) {
            Some(e) => e,
            None => return None,
        };
        Some(TextRange::new(start, end))
    }
}

impl core::ops::Add<TextSize> for TextRange {
    type Output = TextRange;

    /// Both ends moved up by `offset`.
    fn add(self, offset: TextSize) -> (r: TextRange) {
        self.checked_add(offset).unwrap()
    }
}

impl vstd::std_specs::ops::AddSpecImpl<TextSize> for TextRange {
    open spec fn obeys_add_spec() -> bool {
        true
    }

    open spec fn add_req(self, offset: TextSize) -> bool {
        &&& self.wf()
        &&& self.end.raw + offset.raw <= u32::MAX
    }

    open spec fn add_spec(self, offset: TextSize) -> TextRange {
        TextRange {
            start: TextSize { raw: (self.start.raw + offset.raw) as u32 },
            end: TextSize { raw: (self.end.raw + offset.raw) as u32 },
        }
    }
}

impl core::ops::Sub<TextSize> for TextRange {
    type Output = TextRange;

    /// Both ends moved down by `offset`.
    fn sub(self, offset: TextSize) -> (r: TextRange) {
        self.checked_sub(offset).unwrap()
    }
}

impl vstd::std_specs::ops::SubSpecImpl<TextSize> for TextRange {
    open spec fn obeys_sub_spec() -> bool {
        true
    }

    open spec fn sub_req(self, offset: TextSize) -> bool {
        &&& self.wf()
        &&& offset.raw <= self.start.raw
    }

    open spec fn sub_spec(self, offset: TextSize) -> TextRange {
        TextRange {
            start: TextSize { raw: (self.start.raw - offset.raw) as u32 },
            end: TextSize { raw: (self.end.raw - offset.raw) as u32 },
        }
    }
}

/// An offset inside a range is also inside it when its end is counted.
pub proof fn lemma_contains_implies_inclusive(r: TextRange, offset: nat)
    requires
        r.spec_contains(offset),
    ensures
        r.start.raw <= offset <= r.end.raw,
{
}

/// An offset inside a range that lies within another range is inside that range too.
pub proof fn lemma_containts_range_transfers(outer: TextRange, inner: TextRange, offset: nat)
    requires
        outer.start.raw <= inner.start.raw && inner.end.raw <= outer.end.raw,
        inner.spec_contains(offset),
    ensures
        outer.spec_contains(offset),
{
}

/// The intersection does not depend on the order of the two ranges, lies within both, and
/// holds exactly the offsets that both ranges hold.
pub proof fn lemma_intersection_laws(a: TextRange, b: TextRange, offset: nat)
    ensures
        a.spec_overlap(b) == b.spec_overlap(a),
        ({
            let (lo, hi) = a.spec_overlap(b);
            let i = TextRange { start: lo, end: hi };
            &&& lo.raw <= hi.raw ==> (a.start.raw <= i.start.raw && i.end.raw <= a.end.raw)
            &&& lo.raw <= hi.raw ==> (b.start.raw <= i.start.raw && i.end.raw <= b.end.raw)
            &&& i.spec_contains(offset) <==> (a.spec_contains(offset) && b.spec_contains(offset))
        }),
{
}

/// Moving a range up and then down by the same amount gives back the range.
pub proof fn lemma_checked_add_sub_roundtrip(r: TextRange, amount: TextSize)
    requires
        r.wf(),
        r.end.raw + amount.raw <= u32::MAX,
    ensures
        ({
            let moved = TextRange {
                start: TextSize { raw: (r.start.raw + amount.raw) as u32 },
                end: TextSize { raw: (r.end.raw + amount.raw) as u32 },
            };
            &&& moved.wf()
            &&& amount.raw <= moved.start.raw && amount.raw <= moved.end.raw
            &&& TextRange {
                start: TextSize { raw: (moved.start.raw - amount.raw) as u32 },
                end: TextSize { raw: (moved.end.raw - amount.raw) as u32 },
            } == r
        }),
{
}

/// A range made with `at` is as long as asked, and is empty exactly when that length is zero.
pub proof fn lemma_at_len(offset: TextSize, len: TextSize)
    requires
        offset.raw + len.raw <= u32::MAX,
    ensures
        ({
            let r = TextRange { start: offset, end: TextSize { raw: (offset.raw + len.raw) as u32 } };
            &&& r.end.raw - r.start.raw == len.raw
            &&& (r.start.raw == r.end.raw) <==> len.raw == 0
        }),
{
}

} // verus!

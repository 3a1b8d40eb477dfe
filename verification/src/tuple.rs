//! The runtime's tuple type.
//!
//! A tuple shares its element storage and keeps a pair of bounds into it,
//! so slicing never copies.  Three internal forms keep the value compact:
//! the whole vector, a boxed slice with full-width bounds, and an inline
//! slice whose bounds fit in 16 bits so that the value itself stays within
//! 16 bytes.

use vstd::prelude::*;
use std::rc::Rc;
use crate::value::{KValue, DisplayContext, clone_rc, spec_hashable, spec_display_elems};

verus! {

/// The Tuple type used by the runtime
pub struct KTuple(Inner);


// Either the full tuple, a slice with 16-bit bounds, or a slice with
// larger bounds
enum Inner {
    Full(Rc<Vec<KValue>>),
    Slice(Rc<TupleSlice>),
    Slice16(TupleSlice16),
}

struct TupleSlice {
    data: Rc<Vec<KValue>>,
    bounds: core::ops::Range<usize>,
}

// A slice with 16-bit bounds, allowing it to be stored in KTuple without
// the overhead of an additional allocation.
struct TupleSlice16 {
    data: Rc<Vec<KValue>>,
    bounds: core::ops::Range<u16>,
    // A placeholder with spare bit patterns, giving the compiler a spot
    // to store KTuple's discriminant so that the whole value stays within
    // 16 bytes; always false.
    niche: bool,
}

fn u16_to_usize_range(r: core::ops::Range<u16>) -> (s: core::ops::Range<usize>)
    ensures
        s.start == r.start as usize && s.end == r.end as usize,
{
    (r.start as usize)..(r.end as usize)
}

fn usize_to_u16_range(r: core::ops::Range<usize>) -> (s: Option<core::ops::Range<u16>>)
    ensures
        r.start <= u16::MAX && r.end <= u16::MAX ==> (s matches Some(b) && b.start == r.start
            && b.end == r.end),
        !(r.start <= u16::MAX && r.end <= u16::MAX) ==> s is None,
{
    if r.start <= 0xffff && r.end <= 0xffff {
        Some((r.start as u16)..(r.end as u16))
    } else {
        None
    }
}

impl View for KTuple {
    type V = Seq<KValue>;

    closed spec fn view(&self) -> Seq<KValue> {
        match self.0 {
            Inner::Full(d) => d@,
            Inner::Slice(s) => s.data@.subrange(s.bounds.start as int, s.bounds.end as int),
            Inner::Slice16(s) => s.data@.subrange(s.bounds.start as int, s.bounds.end as int),
        }
    }
}

impl KTuple {
    /// The tuple's internal consistency: its bounds lie within the shared
    /// storage.
    pub closed spec fn wf(&self) -> bool {
        match self.0 {
            Inner::Full(_) => true,
            Inner::Slice(s) => s.bounds.start <= s.bounds.end && s.bounds.end
                <= s.data@.len(),
            Inner::Slice16(s) => s.bounds.start <= s.bounds.end && s.bounds.end as int
                <= s.data@.len() && !s.niche,
        }
    }

    /// A tuple holding the given values.
    pub fn from(data: Vec<KValue>) -> (r: KTuple)
        ensures
            r.wf(),
            r@ == data@,
    {
        KTuple(Inner::Full(Rc::new(data)))
    }

    // The shared storage and the bounds of this tuple's view into it.
    fn parts(&self) -> (r: (Rc<Vec<KValue>>, usize, usize))
        requires
            self.wf(),
        ensures
            ({
                let (d, s, e) = r;
                s <= e <= d@.len() && self@ == d@.subrange(s as int, e as int)
            }),
    {
        match &self.0 {
            Inner::Full(d) => {
                let dd = clone_rc(d);
                let len = (*dd).len();
                proof {
                    assert(dd@.subrange(0, dd@.len() as int) =~= dd@);
                }
                (dd, 0, len)
            },
            Inner::Slice(s) => (clone_rc(&s.data), s.bounds.start, s.bounds.end),
            Inner::Slice16(s) => (
                clone_rc(&s.data),
                s.bounds.start as usize,
                s.bounds.end as usize,
            ),
        }
    }

    // A tuple viewing `data[bounds]`, in the smallest form that fits.
    fn from_slice(data: Rc<Vec<KValue>>, start: usize, end: usize) -> (r: KTuple)
        requires
            start <= end <= data@.len(),
        ensures
            r.wf(),
            r@ == data@.subrange(start as int, end as int),
    {
        match usize_to_u16_range(start..end) {
            Some(b16) => KTuple(Inner::Slice16(TupleSlice16 { data, bounds: b16, niche: false })),
            None => KTuple(
                Inner::Slice(Rc::new(TupleSlice { data, bounds: start..end })),
            ),
        }
    }

    /// Returns a new tuple with shared data and with restricted bounds
    ///
    /// The provided bounds are relative to the current tuple's bounds
    /// (rather than to the underlying shared data), so the result is
    /// always a sub-sequence of the input tuple: some tuple is returned
    /// exactly when the requested range lies within this tuple, and it
    /// views the requested elements without any copying.
    pub fn make_sub_tuple(&self, new_bounds: core::ops::Range<usize>) -> (r: Option<KTuple>)
        requires
            self.wf(),
        ensures
            (match r {
                Some(t) => t.wf() && new_bounds.start <= new_bounds.end && new_bounds.end
                    <= self@.len() && t@ == self@.subrange(
                    new_bounds.start as int,
                    new_bounds.end as int,
                ),
                None => !(new_bounds.start <= new_bounds.end && new_bounds.end <= self@.len()),
            }),
    {
        let (data, base_start, base_end) = self.parts();
        let len = base_end - base_start;
        if new_bounds.start <= new_bounds.end && new_bounds.end <= len {
            let t = Self::from_slice(
                clone_rc(&data),
                base_start + new_bounds.start,
                base_start + new_bounds.end,
            );
            proof {
                assert(t@ =~= self@.subrange(new_bounds.start as int, new_bounds.end as int));
            }
            Some(t)
        } else {
            None
        }
    }

    /// Returns true if the tuple contains only immutable values
    pub fn is_hashable(&self) -> (r: bool)
        requires
            self.wf(),
        ensures
            r == (forall|i: int| 0 <= i < self@.len() ==> spec_hashable(#[trigger] self@[i])),
    {
        let (data, s, e) = self.parts();
        let mut i = s;
        loop
            invariant
                s <= i <= e <= data@.len(),
                self@ == data@.subrange(s as int, e as int),
                forall|k: int| s <= k < i ==> spec_hashable(#[trigger] data@[k]),
            ensures
                (i == e && forall|k: int| s <= k < i ==> spec_hashable(#[trigger] data@[k]))
                    || (i < e && !spec_hashable(data@[i as int])),
            decreases e - i,
        {
            if i == e {
                break;
            }
            if !(*data)[i].is_hashable() {
                break;
            }
            i = i + 1;
        }
        if i == e {
            proof {
                assert forall|k: int| 0 <= k < self@.len() implies spec_hashable(
                    #[trigger] self@[k],
                ) by {
                    assert(self@[k] == data@[s + k]);
                }
            }
            true
        } else {
            proof {
                assert(self@[i - s] == data@[i as int]);
            }
            false
        }
    }

    /// Removes and returns the first value in the tuple
    ///
    /// The internal bounds of the tuple are adjusted to 'remove' the first
    /// element; no change is made to the underlying tuple data.
    pub fn pop_front(&mut self) -> (r: Option<KValue>)
        requires
            old(self).wf(),
        ensures
            final(self).wf(),
            (match r {
                Some(v) => old(self)@.len() > 0 && v == old(self)@[0] && final(self)@ == old(
                    self,
                )@.drop_first(),
                None => old(self)@.len() == 0 && final(self)@ == old(self)@,
            }),
    {
        let (data, s, e) = self.parts();
        if s == e {
            return None;
        }
        let v = (*data)[s].clone();
        let t = Self::from_slice(data, s + 1, e);
        proof {
            assert(t@ =~= old(self)@.drop_first());
        }
        *self = t;
        Some(v)
    }

    /// Removes and returns the last value in the tuple
    ///
    /// The internal bounds of the tuple are adjusted to 'remove' the last
    /// element; no change is made to the underlying tuple data.
    pub fn pop_back(&mut self) -> (r: Option<KValue>)
        requires
            old(self).wf(),
        ensures
            final(self).wf(),
            (match r {
                Some(v) => old(self)@.len() > 0 && v == old(self)@.last() && final(self)@ == old(
                    self,
                )@.drop_last(),
                None => old(self)@.len() == 0 && final(self)@ == old(self)@,
            }),
    {
        let (data, s, e) = self.parts();
        if s == e {
            return None;
        }
        let v = (*data)[e - 1].clone();
        let t = Self::from_slice(data, s, e - 1);
        proof {
            assert(t@ =~= old(self)@.drop_last());
        }
        *self = t;
        Some(v)
    }

    /// The number of elements the tuple views.
    pub fn len(&self) -> (n: usize)
        requires
            self.wf(),
        ensures
            n == self@.len(),
    {
        let (_, s, e) = self.parts();
        e - s
    }

    /// A copy of the element at the given position.
    pub fn get(&self, i: usize) -> (r: Option<KValue>)
        requires
            self.wf(),
        ensures
            (match r {
                Some(v) => i < self@.len() && v == self@[i as int],
                None => i >= self@.len(),
            }),
    {
        let (data, s, e) = self.parts();
        if i < e - s {
            Some((*data)[s + i].clone())
        } else {
            None
        }
    }

    /// The text the tuple renders as: the elements, comma-separated, in
    /// parentheses.
    pub open spec fn spec_display(s: Seq<KValue>) -> Seq<char> {
        seq!['('] + spec_display_elems(s, 0) + seq![')']
    }

    /// Renders the tuple into the provided display context
    pub fn display(&self, ctx: &mut DisplayContext)
        requires
            self.wf(),
        ensures
            final(ctx).output@ == old(ctx).output@ + Self::spec_display(self@),
    {
        let (data, s, e) = self.parts();
        let ghost elems = self@;
        ctx.append_char('(');
        let ghost base = ctx.output@;
        let mut i = s;
        loop
            invariant
                s <= i <= e <= data@.len(),
                elems == data@.subrange(s as int, e as int),
                ctx.output@ + spec_display_elems(elems, i - s) == base + spec_display_elems(
                    elems,
                    0,
                ),
            ensures
                ctx.output@ == base + spec_display_elems(elems, 0),
            decreases e - i,
        {
            if i == e {
                break;
            }
            let ghost pre = ctx.output@;
            if i > s {
                ctx.append(", ");
            }
            (*data)[i].display(ctx);
            proof {
                let k = i - s;
                let sep: Seq<char> = if k > 0 {
                    ", "@
                } else {
                    Seq::<char>::empty()
                };
                assert(elems[k] == data@[i as int]);
                assert(ctx.output@ =~= pre + (sep + crate::value::spec_display_value(elems[k])));
                assert(spec_display_elems(elems, k) =~= (sep + crate::value::spec_display_value(
                    elems[k],
                )) + spec_display_elems(elems, k + 1));
                assert(ctx.output@ + spec_display_elems(elems, k + 1) =~= pre
                    + spec_display_elems(elems, k));
            }
            i = i + 1;
        }
        ctx.append_char(')');
        proof {
            assert(ctx.output@ =~= old(ctx).output@ + Self::spec_display(self@));
        }
    }
}

impl Clone for KTuple {
    fn clone(&self) -> (r: KTuple)
        ensures
            r == *self,
    {
        KTuple(
            match &self.0 {
                Inner::Full(d) => Inner::Full(clone_rc(d)),
                Inner::Slice(s) => Inner::Slice(clone_rc(s)),
                Inner::Slice16(s) => Inner::Slice16(
                    TupleSlice16 {
                        data: clone_rc(&s.data),
                        bounds: s.bounds.start..s.bounds.end,
                        niche: s.niche,
                    },
                ),
            },
        )
    }
}

impl Default for KTuple {
    fn default() -> (r: KTuple)
        ensures
            r.wf(),
            r@ == Seq::<KValue>::empty(),
    {
        let r = KTuple::from(Vec::new());
        proof {
            assert(r@ =~= Seq::<KValue>::empty());
        }
        r
    }
}

/// Slicing composes: taking a sub-tuple of a sub-tuple views the same
/// elements as taking a single sub-tuple with the composed bounds, for
/// all bounds for which the composed slice is in range.  The contract of
/// [`KTuple::make_sub_tuple`] pins each slice to a `subrange` of the
/// elements, so the law is stated over element sequences.
pub proof fn lemma_sub_tuple_idempotent(t: Seq<KValue>, a: int, b: int, c: int, d: int)
    requires
        0 <= a <= b <= t.len(),
        0 <= c <= d <= b - a,
    ensures
        t.subrange(a, b).subrange(c, d) == t.subrange(a + c, a + d),
{
    assert(t.subrange(a, b).subrange(c, d) =~= t.subrange(a + c, a + d));
}

} // verus!

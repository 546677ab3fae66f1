//! The largest sample value of a graymap or pixmap, and the trait that gives a
//! buffer's limit on its samples.

use vstd::prelude::*;
use crate::text::{decimal_bytes, push_decimal_bytes};
use super::error::PnmResult;

verus! {

/// A sample maximum: a `u16` that is never zero.
#[derive(Clone, Copy, Debug, PartialEq, Eq)]
pub struct MaxValue {
    value: u16,
}

impl MaxValue {
    #[verifier::type_invariant]
    closed spec fn nonzero(self) -> bool {
        self.value != 0
    }

    /// The value, or `None` for zero.
    pub fn new(value: u16) -> (r: Option<MaxValue>)
        ensures
            r is Some <==> value != 0,
            r matches Some(m) ==> m@ == value,
    {
        if value == 0 {
            None
        } else {
            Some(MaxValue { value })
        }
    }

    /// The value, which is never zero.
    pub fn get(&self) -> (r: u16)
        ensures
            r == self@,
            r != 0,
    {
        proof {
            use_type_invariant(self);
        }
        self.value
    }
}

impl View for MaxValue {
    type V = u16;

    closed spec fn view(&self) -> u16 {
        self.value
    }
}

/// The sample maximum that a buffer stores: none for bitmaps, a `MaxValue`
/// otherwise.
pub trait MaxValTrait {
    /// The limit that samples must keep to.
    spec fn limit_spec(&self) -> Option<MaxValue>;

    /// The text that follows the size line's values in the header.
    spec fn header_text(&self) -> Seq<u8>;

    fn limit(&self) -> (r: Option<MaxValue>)
        ensures
            r == self.limit_spec(),
    ;

    /// Appends the maximum, as it stands in the header, to `w`.
    fn write_max_val(&self, w: &mut Vec<u8>) -> (r: PnmResult<()>)
        ensures
            r is Ok,
            final(w)@ == old(w)@ + self.header_text(),
    ;
}

impl MaxValTrait for () {
    open spec fn limit_spec(&self) -> Option<MaxValue> {
        None
    }

    open spec fn header_text(&self) -> Seq<u8> {
        Seq::empty()
    }

    fn limit(&self) -> (r: Option<MaxValue>) {
        None
    }

    fn write_max_val(&self, w: &mut Vec<u8>) -> (r: PnmResult<()>) {
        assert(old(w)@ + Seq::<u8>::empty() =~= old(w)@);
        Ok(())
    }
}

impl MaxValTrait for MaxValue {
    open spec fn limit_spec(&self) -> Option<MaxValue> {
        Some(*self)
    }

    open spec fn header_text(&self) -> Seq<u8> {
        seq![32u8] + decimal_bytes(self@ as nat)
    }

    fn limit(&self) -> (r: Option<MaxValue>) {
        Some(*self)
    }

    fn write_max_val(&self, w: &mut Vec<u8>) -> (r: PnmResult<()>) {
        w.push(32u8);
        push_decimal_bytes(w, self.get() as usize);
        assert(w@ =~= old(w)@ + self.header_text());
        Ok(())
    }
}

} // verus!

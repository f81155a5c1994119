//! Fixed-size arrays of KoalaBear field elements.

use crate::koalabear::KoalaBear;
use crate::constants::{HASH_LEN, PARAMETER_LEN, RANDOMNESS_LEN};
use vstd::prelude::*;

verus! {

/// Array of field elements, used for parameters, hashes and randomness.
#[derive(Clone, Copy, Debug, PartialEq, Eq)]
pub struct FieldArray<const N: usize>(pub [KoalaBear; N]);

impl<const N: usize> View for FieldArray<N> {
    type V = Seq<KoalaBear>;

    open spec fn view(&self) -> Seq<KoalaBear> {
        self.0@
    }
}

impl<const N: usize> FieldArray<N> {
    /// Wrap an array.
    pub fn new(arr: [KoalaBear; N]) -> (r: Self)
        ensures
            r.0 == arr,
    {
        FieldArray(arr)
    }

    /// The wrapped array.
    pub fn inner(&self) -> (r: &[KoalaBear; N])
        ensures
            *r == self.0,
    {
        &self.0
    }
}

impl<const N: usize> From<[KoalaBear; N]> for FieldArray<N> {
    fn from(arr: [KoalaBear; N]) -> (r: Self) {
        FieldArray(arr)
    }
}

impl<const N: usize> vstd::std_specs::convert::FromSpecImpl<[KoalaBear; N]> for FieldArray<N> {
    open spec fn obeys_from_spec() -> bool {
        true
    }

    open spec fn from_spec(arr: [KoalaBear; N]) -> Self {
        FieldArray(arr)
    }
}

/// The all-zero array of `N` elements.
pub open spec fn zeros(n: nat) -> Seq<KoalaBear> {
    Seq::new(n, |i: int| KoalaBear(0))
}

impl Default for FieldArray<HASH_LEN> {
    fn default() -> (r: Self)
        ensures
            r@ == zeros(HASH_LEN as nat),
    {
        let r = FieldArray([KoalaBear(0); HASH_LEN]);
        proof {
            assert(r@ =~= zeros(HASH_LEN as nat));
        }
        r
    }
}

impl Default for FieldArray<PARAMETER_LEN> {
    fn default() -> (r: Self)
        ensures
            r@ == zeros(PARAMETER_LEN as nat),
    {
        let r = FieldArray([KoalaBear(0); PARAMETER_LEN]);
        proof {
            assert(r@ =~= zeros(PARAMETER_LEN as nat));
        }
        r
    }
}

impl Default for FieldArray<RANDOMNESS_LEN> {
    fn default() -> (r: Self)
        ensures
            r@ == zeros(RANDOMNESS_LEN as nat),
    {
        let r = FieldArray([KoalaBear(0); RANDOMNESS_LEN]);
        proof {
            assert(r@ =~= zeros(RANDOMNESS_LEN as nat));
        }
        r
    }
}

} // verus!

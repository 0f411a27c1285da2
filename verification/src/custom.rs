//! A colour model put together from three plain functions.

use vstd::prelude::*;
use crate::color::{ColorModel, Rgb};

verus! {

/// A colour model given by the function that converts a pixel, the function
/// that measures the distance between two colours, and the function that
/// finds the centre of a group of colours.
#[verifier::reject_recursive_types(C)]
pub struct Custom<C: Copy, F: Fn(&Rgb) -> C, G: Fn(&C, &C) -> u32, H: Fn(&Vec<C>) -> C> {
    convert: F,
    distance: G,
    mean: H,
    colour: core::marker::PhantomData<C>,
}

/// Whether the three functions can stand for a colour model: each can be
/// called on every argument (the centre on every non-empty group) and
/// returns what depends on its arguments alone.
pub open spec fn pure<C, F: Fn(&Rgb) -> C, G: Fn(&C, &C) -> u32, H: Fn(&Vec<C>) -> C>(
    convert: F,
    distance: G,
    mean: H,
) -> bool {
    &&& forall|px: Rgb| call_requires(convert, (&px,))
    &&& forall|px: Rgb, c1: C, c2: C|
        call_ensures(convert, (&px,), c1) && call_ensures(convert, (&px,), c2) ==> c1 == c2
    &&& forall|a: C, b: C| call_requires(distance, (&a, &b))
    &&& forall|a: C, b: C, d1: u32, d2: u32|
        call_ensures(distance, (&a, &b), d1) && call_ensures(distance, (&a, &b), d2) ==> d1 == d2
    &&& forall|v: Vec<C>| v@.len() > 0 ==> call_requires(mean, (&v,))
    &&& forall|v: Vec<C>, w: Vec<C>, c1: C, c2: C|
        v@ == w@ && call_ensures(mean, (&v,), c1) && call_ensures(mean, (&w,), c2) ==> c1 == c2
}

/// Whether `mean` may return `c` for a group that holds `colors`.
pub open spec fn yields<C, H: Fn(&Vec<C>) -> C>(mean: H, colors: Seq<C>, c: C) -> bool {
    exists|v: Vec<C>| #[trigger] call_ensures(mean, (&v,), c) && v@ == colors
}

impl<C: Copy, F: Fn(&Rgb) -> C, G: Fn(&C, &C) -> u32, H: Fn(&Vec<C>) -> C> Custom<C, F, G, H> {
    #[verifier::type_invariant]
    pub closed spec fn well_formed(&self) -> bool {
        pure(self.convert, self.distance, self.mean)
    }

    /// Binds the three functions into a colour model: the model converts,
    /// measures and centres as the functions do. No search is cut short
    /// under it, since nothing is known of its distance.
    pub fn new(convert: F, distance: G, mean: H) -> (model: Self)
        requires
            pure(convert, distance, mean),
        ensures
            forall|px: Rgb, c: C| #[trigger]
                call_ensures(convert, (&px,), c) ==> model.converted(px) == c,
            forall|a: C, b: C, d: u32| #[trigger]
                call_ensures(distance, (&a, &b), d) ==> model.gap(a, b) == d,
            forall|v: Vec<C>, c: C| #[trigger]
                call_ensures(mean, (&v,), c) ==> model.centre(v@) == c,
            !model.metric(),
    {
        let model = Custom { convert, distance, mean, colour: core::marker::PhantomData };
        proof {
            assert forall|v: Vec<C>, c: C| #[trigger]
                call_ensures(mean, (&v,), c) implies model.centre(v@) == c by {
                let picked = model.centre(v@);
                assert(yields(mean, v@, c));
                let w = choose|w: Vec<C>| #[trigger]
                    call_ensures(mean, (&w,), picked) && w@ == v@;
                assert(picked == c);
            }
        }
        model
    }
}

impl<C: Copy, F: Fn(&Rgb) -> C, G: Fn(&C, &C) -> u32, H: Fn(&Vec<C>) -> C> ColorModel for Custom<
    C,
    F,
    G,
    H,
> {
    type Color = C;

    closed spec fn converted(&self, px: Rgb) -> C {
        choose|c: C| call_ensures(self.convert, (&px,), c)
    }

    closed spec fn gap(&self, a: C, b: C) -> nat {
        (choose|d: u32| call_ensures(self.distance, (&a, &b), d)) as nat
    }

    closed spec fn centre(&self, colors: Seq<C>) -> C {
        choose|c: C| yields(self.mean, colors, c)
    }

    fn convert(&self, px: &Rgb) -> (c: C) {
        proof {
            use_type_invariant(self);
        }
        (self.convert)(px)
    }

    fn distance(&self, a: &C, b: &C) -> (d: u32) {
        proof {
            use_type_invariant(self);
        }
        (self.distance)(a, b)
    }

    fn mean(&self, colors: &Vec<C>) -> (c: C) {
        proof {
            use_type_invariant(self);
        }
        let c = (self.mean)(colors);
        proof {
            let picked = self.centre(colors@);
            assert(call_ensures(self.mean, (colors,), c));
            assert(yields(self.mean, colors@, c));
            let v = choose|v: Vec<C>| #[trigger]
                call_ensures(self.mean, (&v,), picked) && v@ == colors@;
            assert(picked == c);
        }
        c
    }

    open spec fn metric(&self) -> bool {
        false
    }

    fn is_metric(&self) -> (yes: bool) {
        false
    }

    proof fn lemma_gap_fits(&self, a: C, b: C) {
    }

    proof fn lemma_metric(&self, a: C, b: C, c: C) {
    }
}

} // verus!

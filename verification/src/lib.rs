//! Ingredients of a game: a colour and the shapes that the piece presents
//! under quarter-turn rotations.
//!
//! The work is done in [`shape`]: a 3x3 occupancy grid ([`RawShape`]) is
//! rotated four times, each rotation is cropped to its bounding box and
//! aligned to the frame's origin ([`ProcessedShape`]), and the distinct
//! results are collected. [`alignment`] and [`rotation`] hold the laws that
//! these operations obey.

pub mod alignment;
pub mod rotation;
pub mod shape;

pub use crate::shape::ProcessedShape;
pub use crate::shape::RawShape;
use vstd::prelude::*;

verus! {

/// The colour of an ingredient.
#[derive(Copy, Clone, PartialEq, Eq, Structural, Hash, Debug)]
pub enum Color {
    Red,
    Green,
    Blue,
    Yellow,
    Purple,
}

/// A colour together with the distinct canonical shapes of one piece.
#[derive(Debug)]
pub struct Ingredient {
    color: Color,
    shape: Vec<ProcessedShape>,
}

impl View for Ingredient {
    type V = (Color, Seq<ProcessedShape>);

    /// The colour and the list of shapes.
    closed spec fn view(&self) -> (Color, Seq<ProcessedShape>) {
        (self.color, self.shape@)
    }
}

impl Clone for Ingredient {
    fn clone(&self) -> (res: Self)
        ensures
            res@ == self@,
    {
        proof {
            use_type_invariant(self);
        }
        let shape = self.shape.clone();
        Ingredient { color: self.color, shape }
    }
}

impl Ingredient {
    /// The shapes are the variant list of some grid.
    pub open spec fn wf(self) -> bool {
        exists|raw: RawShape| self@.1 == raw.variants()
    }

    #[verifier::type_invariant]
    spec fn inv(self) -> bool {
        self.wf()
    }

    /// The ingredient of the given colour whose shapes are those that
    /// `raw_shape` presents under its four rotations.
    pub fn from_raw_shape(color: Color, raw_shape: RawShape) -> (res: Self)
        ensures
            res@ == (color, raw_shape.variants()),
    {
        Ingredient { color, shape: raw_shape.available_shapes() }
    }

    /// The ingredient's colour.
    pub fn color(&self) -> (res: Color)
        ensures
            res == self@.0,
    {
        self.color
    }

    /// The ingredient's shapes: 1, 2 or 4 of them, no two alike.
    pub fn shape(&self) -> (res: &Vec<ProcessedShape>)
        ensures
            res@ == self@.1,
            self.wf(),
            res@.no_duplicates(),
            res.len() == 1 || res.len() == 2 || res.len() == 4,
    {
        proof {
            use_type_invariant(self);
            let raw = choose|raw: RawShape| self@.1 == raw.variants();
            crate::rotation::lemma_variants(raw);
        }
        &self.shape
    }
}

} // verus!

//! A cellular-automaton particle sandbox: a grid of cells holding sand,
//! water, fire and other matter, advanced one tick at a time.
use vstd::prelude::*;

pub mod area;
pub mod cell;
pub mod color;
pub mod frame;
pub mod grid;
pub mod offset;
pub mod particles;
pub mod region;
pub mod simulation;
pub mod sprite;
pub mod utility;

pub use cell::Cell;
pub use color::Color;
pub use offset::Offset;
pub use simulation::Simulation;
pub use sprite::Sprite;

verus! {

/// The hasher of rustc-hash's `FxHashMap` and `FxHashSet`, carried opaquely.
#[verifier::external_type_specification]
#[verifier::external_body]
pub struct ExFxHasher(rustc_hash::FxHasher);

/// std's builder of default hashers, carried opaquely.
#[verifier::external_type_specification]
#[verifier::external_body]
#[verifier::reject_recursive_types(H)]
pub struct ExBuildHasherDefault<H>(core::hash::BuildHasherDefault<H>);

} // verus!

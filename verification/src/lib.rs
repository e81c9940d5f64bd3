//! Surface-water spread across a 2-D elevation grid.
//!
//! Given a rectangular grid of elevation values and a starting cell, the
//! library precomputes, for every cell, a 4-bit mask of the cardinal
//! neighbors that lie strictly downhill, and then advances a wet-state grid
//! step by step with a 3-by-3 stencil rule until the wet set stops changing.

pub mod convolve;
pub mod flow;
pub mod grid;
pub mod sim;

//! Procedural images from small arithmetic expressions over pixel
//! coordinates: the expression model, a batch evaluator with a cross-pixel
//! normalisation step, a random expression generator driven by weight
//! vectors, and a vote-driven pool that evolves those weights.

pub mod rng;
pub mod utils;
pub mod expr;
pub mod meaning;
pub mod eval;
pub mod display_expr;
pub mod gen_expr;
pub mod gen_png;
pub mod pool;

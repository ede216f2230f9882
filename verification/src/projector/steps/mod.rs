//! What each step of the projector comes to, said of its inputs and results
//! alone.

pub mod asking;
pub mod collecting;
pub mod failing;
pub mod folding;
pub mod grouping;
pub mod rebuilding;
pub mod sets;

//! The phases of the tree search: selection, expansion and backpropagation.

pub mod backpropegation;
pub mod expansion;
pub mod selection;

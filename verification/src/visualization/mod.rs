//! Treemap preparation: which items a treemap shows, in which order, and how
//! they are labelled and colored.
pub mod treemap;

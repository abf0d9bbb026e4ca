//! A verified ordered binary search tree, together with a handful of small
//! verified exercises around it: a package-description builder, taxicab
//! geometry on grid points, hand-rolled iteration cursors, checked integer
//! arithmetic and decimal parsing.
//!
//! The centrepiece is [`tree::BinaryTree`], an unbalanced binary search
//! tree over any type with a [`order::TotalOrder`]. Its contracts describe
//! it as a mathematical set of values, and the lemmas beside it prove the
//! laws that a set-like container owes its callers: inserting twice is
//! inserting once, membership answers follow exactly from what was
//! inserted, the count is the number of distinct values, and insertion
//! order never shows in the contents.

pub mod builder;
pub mod calculate;
pub mod grid;
pub mod helpers;
pub mod order;
pub mod points;
pub mod tree;

//! Builds a consolidated shopping list out of free-text recipes: quantities
//! with units, their parsing and arithmetic, ingredient lines, merging,
//! serving-size scaling and the weekly recipe selection.

pub mod qty;
pub mod recipe;
pub mod select;
pub mod text;

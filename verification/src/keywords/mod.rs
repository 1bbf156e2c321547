//! The keyword validators, one module for each keyword.
pub mod additional_properties;
pub mod boolean;
pub mod combinators;
pub mod conditional;
pub mod const_;
pub mod contains;
pub mod dependent;
pub mod dependent_required;
pub mod enum_;
pub mod items;
pub mod limits;
pub mod min_length;
pub mod not_;
pub mod prefix_items;
pub mod properties;
pub mod property_names;
pub mod required;
pub mod type_;
pub mod unevaluated_properties;
pub mod unique_items;

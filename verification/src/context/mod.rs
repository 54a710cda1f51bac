//! What the repair logic knows of the values that variables and sub-expressions may take.
pub mod guards;
pub mod permissible_bounds;
pub mod variable_ranges;

pub mod definitions;
pub mod parameters;
pub mod signing;

pub mod definitions;
pub mod keys;
pub mod parameter;
pub mod signing;

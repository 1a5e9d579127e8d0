//! The high-level intermediate representation.
pub mod definition;
pub mod display;
pub mod external;
pub mod instance;
pub mod keyed;
pub mod listing;
pub mod names;
pub mod order;
pub mod params;
pub mod value;

//! Region layout and witness assignment.

pub mod cell;
pub mod floor_planner;
pub mod layouter;
pub mod table_layouter;
pub mod value;

pub use cell::{Cell, RegionIndex, RegionStart};
pub use value::Value;

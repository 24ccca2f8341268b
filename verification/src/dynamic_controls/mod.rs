//! Parameters of a transform that may change while it plays: a plain value,
//! or a cell that another thread writes.

pub mod dynamic_bool;
pub mod dynamic_usize;
pub mod fixed;
pub mod maybe_dynamic;

pub use dynamic_bool::DynamicBool;
pub use dynamic_usize::DynamicUsize;
pub use fixed::Fixed;
pub use maybe_dynamic::MaybeDynamic;

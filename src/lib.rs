pub mod args;
pub mod poll;
pub mod shorten;
pub mod summary;
pub mod timestamp;

pub use args::Args;
pub use summary::TaskSummary;

pub mod date;
pub mod digits;
pub mod format;
pub mod manager;
pub mod task;

pub use date::Date;
pub use date::Ymd;
pub use format::FormatParams;
pub use manager::TasksManager;
pub use task::Task;

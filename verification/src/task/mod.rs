pub mod task;
pub mod task_manager;

pub mod idle;
pub mod manager;
pub mod task;
pub mod tid;

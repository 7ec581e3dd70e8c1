pub mod api_model;
pub mod catalog;
pub mod conf;
pub mod config;
pub mod flash;
pub mod flatten;
pub mod flow;
pub mod json;
pub mod laws;
pub mod registry;
pub mod row;
pub mod supervisor;
pub mod task_model;

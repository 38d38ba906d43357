pub mod agent;
pub mod v1;

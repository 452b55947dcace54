pub mod combat_log;
pub mod report;

//! Analysis of Warcraft Logs combat data: parsing of spell tables, extraction of
//! cast assignments relative to dynamic timers, and healing-priority statistics.

pub mod assignments;
pub mod healing;
pub mod text;
pub mod warcraft_logs;

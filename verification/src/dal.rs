//! The two logs: body weight by day, and calories by moment.

pub mod calories;
pub mod weight;

//! What the service answers: the estimate, and the reading and writing of
//! the two logs.

pub mod admin;
pub mod calories;
pub mod tdee;
pub mod weight;

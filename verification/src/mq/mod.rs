//! Task dispatch: the store of urgent tasks and the rules that decide which
//! agent may see and take which task.

pub mod laws;
pub mod scheduler;
pub mod urgent;

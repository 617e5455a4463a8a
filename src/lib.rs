//! A fixed-step block-diagram simulation core: named signal buses, wiring
//! between them, and the bookkeeping a scheduler needs to drive models.
pub mod signal;
pub mod bus;
pub mod subsystem;
pub mod recorder;
pub mod system;
pub mod model;

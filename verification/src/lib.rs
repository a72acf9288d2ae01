//! The server of a site that shows how fast a compiler is: what its requests ask for, what is
//! answered, and what is remembered. Beside it stands a register of a display controller, which
//! one of the benchmarks drives.
pub mod arithmetic;
pub mod collector;
pub mod db;
pub mod generic;
pub mod load;
pub mod number;
pub mod order;
pub mod selection;
pub mod server;
pub mod table;
pub mod text;
pub mod vnpccr;

//! Turns a stream of decoded activity records into a rectangular,
//! column-oriented table.
pub mod value;
pub mod kinds;
pub mod laws;
pub mod naming;
pub mod table;

//! Runs the tests and the benchmarks of what has been compiled.
//!
//! The library decides what is run, with which arguments, in which order and how
//! much at a time, what is shown of it, and what is told of failures. Compiling,
//! starting processes and writing to the terminal is left to the caller, whom the
//! library tells what to do next.
pub mod batch;
pub mod compile;
pub mod doc_tests;
pub mod jobs;
pub mod lookup;
pub mod model;
pub mod path;
pub mod printer;
pub mod printer_laws;
pub mod process;
pub mod run;
pub mod shell;
pub mod stage;
pub mod worker;

//! The signal sources, one module each: what the raw readings of a source come
//! to. Reading them is up to the program.

pub mod agx;
pub mod battery;
pub mod io;
pub mod ioreport;
pub mod proc_rusage;
pub mod procname;
pub mod thermal;

//! Battery accounting for a recording-first power investigation tool.

pub mod accounting;
pub mod analysis;
pub mod bytes;
pub mod chip;
pub mod command;
pub mod dashboard;
pub mod docker;
pub mod evidence;
pub mod guests;
pub mod gzip;
pub mod heat;
pub mod host;
pub mod inspection;
pub mod ledger;
pub mod measured;
pub mod models;
pub mod names;
pub mod notation;
pub mod num;
pub mod order;
pub mod percent;
pub mod readings;
pub mod record;
pub mod report;
pub mod sampler;
pub mod samplers;
pub mod screen;
pub mod session;
pub mod showing;
pub mod steering;
pub mod text;
pub mod types;
pub mod ui;
pub mod vm;
pub mod written;

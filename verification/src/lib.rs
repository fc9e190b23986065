//! Savio: the rules of the download queue, of file metadata and of the system report.
pub mod binaries;
pub mod bytes;
pub mod controls;
pub mod cut;
pub mod events;
pub mod hardware;
pub mod hints;
pub mod history;
pub mod journal;
pub mod json;
pub mod lines;
pub mod metadata;
pub mod model;
pub mod panels;
pub mod paths;
pub mod power;
pub mod preview;
pub mod queue;
pub mod ratio;
pub mod report;
pub mod session;
pub mod text;
pub mod tone;
pub mod units;

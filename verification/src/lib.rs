//! Planning and supervision for batch media transcoding: which files of a
//! directory tree become conversion jobs, which command converts each, how many
//! run at once, and what the batch reports at the end.
//!
//! The crate decides; it performs no I/O. A caller walks the directory tree,
//! runs the commands and shows the progress, and hands what happened back as
//! plain values. Three state machines divide the decisions between them:
//!
//! - a [`batch::Batch`] takes a whole run from discovery to its report;
//! - a [`phase::Phase`] takes the jobs of one kind through a
//!   [`scheduler::PhaseScheduler`] that bounds how many run at once;
//! - a [`conversion::ConversionRun`] takes one job from its directory to its
//!   outcome and keeps its progress.
//!
//! Around them, [`catalog`] turns the files found into jobs, [`settings`] reads
//! and checks the configuration, [`outcome`] sums up a phase, [`report`]
//! writes sizes for people to read, and [`path`] and [`text`] hold what the
//! others need of paths and strings.
//!
//! Every function carries its contract, and the properties that the design
//! rests on are proved beside the functions they are about: one job for each
//! recognized file, distinct outputs for distinct inputs, never more running
//! jobs than the limit, no work in a dry run or without the tool.
pub mod batch;
pub mod catalog;
pub mod conversion;
pub mod outcome;
pub mod path;
pub mod phase;
pub mod report;
pub mod scheduler;
pub mod settings;
pub mod text;

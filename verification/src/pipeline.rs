//! Planning and accounting for the thumbnailing pipeline.
//!
//! A run reads a directory of images and writes a thumbnail of each into
//! another directory, with a fixed number of workers, and reports how many
//! thumbnails it wrote. The modules follow the work through the run:
//!
//! - `item`: the entries of the input directory and the work items they
//!   give rise to;
//! - `dispatch`: the strategies that divide the work items among workers;
//! - `worker`: what is done with one work item;
//! - `outcome`: what became of it;
//! - `aggregate`: counting the successes and reporting them;
//! - `run`: the order of a whole run, from the directories to the report;
//! - `schedule`: how the steps of concurrent workers can interleave;
//! - `laws`: what holds of every run.

pub mod aggregate;
pub mod dispatch;
pub mod item;
pub mod laws;
pub mod outcome;
pub mod run;
pub mod schedule;
pub mod worker;

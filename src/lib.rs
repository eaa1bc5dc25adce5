//! Replication and task-running logic for OpenZFS datasets: dataset
//! specifiers and their clone-aware ordering, command and pipeline assembly
//! with POSIX quoting, send/receive option filtering, tag filters, project
//! normalization and the runner's scheduling decisions.

pub mod args;
pub mod cmd;
pub mod error;
pub mod fs;
pub mod listing;
pub mod project;
pub mod run;
pub mod select;
pub mod send_recv_opts;
pub mod shell;
pub mod tags;
pub mod text;
pub mod topo;
pub mod util;

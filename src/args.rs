use vstd::prelude::*;

verus! {

/// What the lister is asked for.
#[derive(Clone, Debug)]
pub struct ListArgs {
    /// A long listing: disabled flag, source, target and command.
    pub long: bool,
    /// A long listing without headers or column alignment.
    pub no_headers: bool,
    /// Leave out disabled tasks and jobs.
    pub skip_disabled: bool,
    /// The project, read from `/etc/chithi/<project>.toml`.
    pub project: String,
    /// A single task to list.
    pub task: Option<String>,
}

/// What the runner is asked for.
#[derive(Clone, Debug)]
pub struct RunArgs {
    /// Run without delays or restarts.
    pub no_run_config: bool,
    /// Hold pid files while running.
    pub create_pid_files: bool,
    /// A tag expression that selects what runs.
    pub tags: Option<String>,
    /// The project, read from `/etc/chithi/<project>.toml`.
    pub project: String,
    /// `task` or `task.job`.
    pub task_or_job: Option<String>,
}

} // verus!

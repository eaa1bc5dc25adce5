use chithi::cmd::{control_socket_path, sanitize_host, Cmd, CmdTarget, LocalTime, Pipeline, Sequence, Ssh};
use chithi::error::ErrorKind;
use chithi::fs::{get_is_roots, split_host_at_colon, Fs, Role};
use chithi::project::{Job, Loc, Project, RunConfig, Task};
use chithi::run::{draw_delay, run_job_no_config, JobStep, Pending};
use chithi::select::{TaskOrJob, TaskOrJobIter};
use chithi::send_recv_opts::Opts;
use chithi::shell::escape_str;
use chithi::tags::TagFilter;
use chithi::util::{OptDisplay, Seconds, SpaceSeparatedStrings, SpaceSeparatedStrs};

fn strings(v: &[&str]) -> Vec<String> {
    v.iter().map(|s| s.to_string()).collect()
}

fn argv_text(argv: &[Vec<u8>]) -> Vec<String> {
    argv.iter().map(|a| String::from_utf8(a.clone()).unwrap()).collect()
}

#[test]
fn tag_filter_include_and_exclude() {
    let f = TagFilter::parse("a,!b").unwrap();
    match &f {
        TagFilter::Tagged { require, exclude } => {
            assert_eq!(require, &strings(&["a"]));
            assert_eq!(exclude, &strings(&["b"]));
        }
        TagFilter::Untagged => panic!("expected a tagged filter"),
    }
    assert!(f.matches(&strings(&["a"])));
    assert!(!f.matches(&strings(&["a", "b"])));
    assert!(!f.matches(&strings(&[])));
}

#[test]
fn tag_filter_none_matches_untagged_only() {
    let f = TagFilter::parse("none").unwrap();
    assert!(matches!(f, TagFilter::Untagged));
    assert!(f.matches(&strings(&[])));
    assert!(!f.matches(&strings(&["x"])));
}

#[test]
fn tag_filter_trims_surrounding_space() {
    let f = TagFilter::parse("  none \n").unwrap();
    assert!(matches!(f, TagFilter::Untagged));
    let g = TagFilter::parse(" a,/b ").unwrap();
    assert!(g.matches(&strings(&["a", "c"])));
    assert!(!g.matches(&strings(&["a", "b"])));
}

#[test]
fn tag_filter_empty_require_matches_empty_set() {
    let f = TagFilter::parse("!b").unwrap();
    assert!(f.matches(&strings(&[])));
    assert!(!f.matches(&strings(&["b"])));
}

#[test]
fn tag_filter_rejects_bad_terms() {
    assert_eq!(TagFilter::parse("a,any").unwrap_err().kind, ErrorKind::Other);
    assert!(TagFilter::parse("a,none").is_err());
    assert!(TagFilter::parse("a,,b").is_err());
    assert!(TagFilter::parse("a\tb").is_err());
    assert!(TagFilter::parse("(a)").is_err());
    assert!(TagFilter::parse("!").is_err());
}

#[test]
fn send_recv_options_filtered() {
    let opts = Opts::try_from_str("v o encryption=on x mountpoint R").unwrap();
    assert_eq!(opts.options.len(), 4);
    let argv = opts.filter_allowed(&vec!['v', 'o', 'R']);
    assert_eq!(argv, strings(&["-v", "-o", "encryption=on", "-R"]));
}

#[test]
fn send_recv_options_bundle_flags() {
    let opts = Opts::try_from_str("  vw  R ").unwrap();
    assert_eq!(opts.filter_allowed(&vec!['v', 'w', 'R']), strings(&["-vwR"]));
    assert_eq!(opts.filter_allowed(&vec!['x']), Vec::<String>::new());
}

#[test]
fn send_recv_options_errors() {
    assert!(Opts::try_from_str("v o").is_err());
    assert!(Opts::try_from_str("ov x").is_err());
    assert!(Opts::try_from_str("").unwrap().options.is_empty());
}

fn run_config(delays: &[u16], jitter: Option<u16>, restarts: Option<u8>) -> RunConfig {
    RunConfig {
        max_initial_delay_secs: None,
        max_restart_count: restarts,
        restart_delay_secs: delays.to_vec(),
        max_restart_jitter: jitter,
    }
}

#[test]
fn restart_delay_with_jitter() {
    let rc = run_config(&[10, 20], Some(5), None);
    assert_eq!(rc.restart_delay(0), Some(15));
    assert_eq!(rc.restart_delay(1), Some(25));
    assert_eq!(rc.restart_delay(2), Some(25));
}

#[test]
fn restart_delay_one_or_none_set() {
    assert_eq!(run_config(&[], Some(7), None).restart_delay(3), Some(7));
    assert_eq!(run_config(&[4], None, None).restart_delay(3), Some(4));
    assert_eq!(run_config(&[], None, None).restart_delay(0), None);
    assert_eq!(run_config(&[u16::MAX], Some(u16::MAX), None).restart_delay(0), Some(131070));
}

#[test]
fn job_steps_follow_restart_cap() {
    let rc = run_config(&[10], None, Some(2));
    let loc = Loc::new("p").extend_task("t").extend_job(0);
    assert!(matches!(rc.job_step(&loc, 0, Some(true)), JobStep::Done));
    assert!(matches!(rc.job_step(&loc, 1, Some(false)), JobStep::Retry { max_delay: Some(10) }));
    match rc.job_step(&loc, 2, Some(false)) {
        JobStep::Fail(e) => {
            assert_eq!(e.kind, ErrorKind::Other);
            assert!(e.message.starts_with("task t job 0 in project p"));
        }
        _ => panic!("expected failure"),
    }
    assert!(matches!(rc.job_step(&loc, 0, None), JobStep::Fail(_)));
    let no_cap = run_config(&[], None, None);
    assert!(matches!(no_cap.job_step(&loc, 0, Some(false)), JobStep::Fail(_)));
}

#[test]
fn random_delays_stay_below_bounds() {
    for _ in 0..50 {
        assert!(draw_delay(Some(3)) < 3);
    }
    assert_eq!(draw_delay(Some(0)), 0);
    assert_eq!(draw_delay(None), 0);
    let mut rc = run_config(&[], None, None);
    rc.max_initial_delay_secs = Some(2);
    for _ in 0..50 {
        assert!(rc.initial_delay() < 2);
    }
}

#[test]
fn run_without_config_outcomes() {
    let loc = Loc::new("p").extend_task("t");
    assert!(run_job_no_config(&loc, Some(true)).is_ok());
    let e = run_job_no_config(&loc, Some(false)).unwrap_err();
    assert_eq!(e.message, "task t in project p exited with failure");
    assert!(run_job_no_config(&loc, None).is_err());
}

#[test]
fn sequence_labels() {
    let t = Loc::new("proj").extend_task("t");
    assert_eq!(t.extend_job(3).display_label(), "t.3");
    assert_eq!(t.display_label(), "t");
    assert_eq!(Loc::new("proj").display_label(), "");
    assert_eq!(t.extend_job(12).to_text(), "task t job 12 in project proj");
    assert_eq!(Loc::new("proj").to_text(), "project proj");
}

#[test]
fn pid_file_paths() {
    let p = Loc::new("proj");
    assert_eq!(p.pidfile_path(), "/var/run/chithi/proj.pid");
    assert_eq!(p.extend_task("t").pidfile_path(), "/var/run/chithi/proj/t.pid");
    assert_eq!(p.extend_task("t").extend_job(2).pidfile_path(), "/var/run/chithi/proj/t.2.pid");
}

#[test]
fn escaping_for_remote_shells() {
    assert_eq!(escape_str(&b"pool/fs".to_vec()), b"pool/fs".to_vec());
    assert_eq!(escape_str(&b"a b".to_vec()), b"'a b'".to_vec());
    assert_eq!(escape_str(&b"it's".to_vec()), b"'it'\\''s'".to_vec());
    assert_eq!(escape_str(&b"".to_vec()), b"".to_vec());
    assert_eq!(escape_str(&b"foo#bar".to_vec()), b"'foo#bar'".to_vec());
}

fn remote(host: &str, options: &[&str]) -> CmdTarget {
    CmdTarget::new(Some(host), Some("aes"), None, None, Some("22"), &strings(options))
}

#[test]
fn remote_command_lines() {
    let target = remote("root@h", &["Compression=yes"]);
    let cmd = Cmd::new(&target, true, "zfs", &strings(&["send", "pool@a b"]));
    assert_eq!(
        argv_text(&cmd.to_cmd()),
        strings(&[
            "ssh", "-c", "aes", "-p", "22", "-o", "Compression=yes", "root@h", "sudo", "zfs",
            "send", "'pool@a b'"
        ])
    );
    assert_eq!(
        argv_text(&cmd.to_check()),
        strings(&["ssh", "-c", "aes", "-p", "22", "-o", "Compression=yes", "root@h", "command", "-v", "zfs"])
    );
    assert_eq!(target.to_text(), "ssh -c aes -p 22 -o Compression=yes root@h ");
    assert_eq!(target.pretty_str(), "root@h");
    assert_eq!(target.on_str(), " on ");
}

#[test]
fn local_command_lines() {
    let target = CmdTarget::new_local();
    let cmd = Cmd::new(&target, false, "zfs", &strings(&["list", "a b"]));
    assert_eq!(argv_text(&cmd.to_cmd()), strings(&["zfs", "list", "a b"]));
    assert_eq!(argv_text(&cmd.to_check()), strings(&["sh", "-c", "command -v zfs"]));
    assert_eq!(target.pretty_str(), "local machine");
    assert_eq!(target.host(), "");
}

#[test]
fn pipelines_and_sequences() {
    let local = CmdTarget::new_local();
    let send = Cmd::new(&local, false, "zfs", &strings(&["send", "p@s"]));
    let buffer = Cmd::new(&local, false, "mbuffer", &strings(&[]));
    let single = Pipeline::new(&local, send.clone());
    assert_eq!(argv_text(&single.to_cmd()), strings(&["zfs", "send", "p@s"]));
    let pipe = Pipeline::from(&local, vec![send.clone(), buffer.clone()]).unwrap();
    assert_eq!(argv_text(&pipe.to_cmd()), strings(&["sh", "-c", "--", "zfs send p@s | mbuffer"]));
    let seq = Sequence::from(&local, vec![send.clone(), buffer]).unwrap();
    assert_eq!(argv_text(&seq.to_cmd()), strings(&["sh", "-c", "--", "zfs send p@s ; mbuffer"]));
    assert!(Pipeline::from(&local, Vec::new()).is_none());
    let far = remote("h", &[]);
    let recv = Cmd::new(&far, false, "zfs", &strings(&["receive", "t"]));
    let mut over = Pipeline::from(&far, vec![recv.clone(), recv]).unwrap();
    over.0.use_terminal_if_ssh(true);
    assert_eq!(
        argv_text(&over.to_cmd()),
        strings(&[
            "ssh", "-t", "-o", "LogLevel=QUIET", "h",
            "ssh -c aes -p 22 h zfs  receive t", "|", "ssh -c aes -p 22 h zfs  receive t"
        ])
    );
}

#[test]
fn master_control_commands() {
    let ssh = Ssh::new("u@h", None, Some("cfg"), Some("id"), None, &strings(&[]));
    assert_eq!(
        argv_text(&ssh.master_control_argv("/tmp/s")),
        strings(&["ssh", "-F", "cfg", "-i", "id", "-M", "-S", "/tmp/s", "-o", "ControlPersist=1m", "u@h", "exit"])
    );
    assert_eq!(
        argv_text(&ssh.control_probe_argv("/tmp/s")),
        strings(&["ssh", "-F", "cfg", "-i", "id", "-S", "/tmp/s", "u@h", "echo", "-n"])
    );
    assert_eq!(
        argv_text(&ssh.control_exit_argv("/tmp/s")),
        strings(&["ssh", "-F", "cfg", "-i", "id", "-S", "/tmp/s", "u@h", "-O", "exit"])
    );
    let mut target = CmdTarget::Remote { ssh };
    target.set_control(Some("/tmp/s"));
    let cmd = Cmd::new(&target, false, "zfs", &strings(&[]));
    assert_eq!(argv_text(&cmd.to_cmd()), strings(&["ssh", "-F", "cfg", "-i", "id", "-S", "/tmp/s", "u@h", "zfs"]));
    assert_eq!(target.take_control().as_deref(), Some("/tmp/s"));
    assert_eq!(target.take_control(), None);
}

#[test]
fn control_socket_names() {
    assert_eq!(sanitize_host("root@my.host_1"), "root-myhost1");
    assert_eq!(sanitize_host(&"a".repeat(60)), "a".repeat(50));
    let t = LocalTime { year: 2025, month: 3, day: 7, hour: 4, minute: 5, second: 9 };
    assert_eq!(control_socket_path("u@h", &t, 42, 7), "/tmp/chithi-u-h-20250307040509-42-7");
    let old = LocalTime { year: -5, month: 12, day: 31, hour: 23, minute: 59, second: 59 };
    assert_eq!(control_socket_path("h", &old, 1, 999), "/tmp/chithi-h--0051231235959-1-999");
    let ssh = Ssh::new("u@h", None, None, None, None, &strings(&[]));
    let path = ssh.new_control_path(42);
    assert!(path.starts_with("/tmp/chithi-u-h-"));
    let draw: u32 = path.rsplit('-').next().unwrap().parse().unwrap();
    assert!(draw < 1000);
}

#[test]
fn seconds_in_words() {
    assert_eq!(Seconds(0).to_text(), "0 seconds");
    assert_eq!(Seconds(1).to_text(), "1 second");
    assert_eq!(Seconds(120).to_text(), "2 minutes");
    assert_eq!(Seconds(3661).to_text(), "1 hour 1 minute 1 second");
    assert_eq!(Seconds(7200 + 5).to_text(), "2 hours 5 seconds");
}

#[test]
fn spaced_and_optional_text() {
    assert_eq!(SpaceSeparatedStrings(strings(&["a", "b", "c"])).to_text(), "a b c");
    assert_eq!(SpaceSeparatedStrings(strings(&[])).to_text(), "");
    assert_eq!(SpaceSeparatedStrs(vec!["x", "y"]).to_text(), "x y");
    assert_eq!(OptDisplay(Some("v".to_string())).to_text(), "v");
    assert_eq!(OptDisplay(None).to_text(), "");
}

#[test]
fn dataset_specifier_laws() {
    let (h, p) = split_host_at_colon("user@host:pool/fs").unwrap();
    assert_eq!((h.as_str(), p.as_str()), ("user@host", "pool/fs"));
    assert!(split_host_at_colon("pool/a:b").is_none());
    let fs = Fs::new(Some(""), "poolnothost:alsopool/fs", Role::Target);
    assert_eq!(fs.host, None);
    assert_eq!(fs.fs, "poolnothost:alsopool/fs");
    let plain = Fs::new(Some("h"), "pool/fs", Role::Source);
    assert_eq!(plain.host.as_deref(), Some("h"));
    assert_eq!(plain.fs, "pool/fs");
}

#[test]
fn child_datasets_on_the_target() {
    let source = Fs::new(None, "src/data", Role::Source);
    let target = Fs::new(Some("backup"), "dst/copy", Role::Target);
    let mut child = source.new_child("src/data/a/b".to_string(), "src/data/a@s1".to_string());
    let t = target.child_from_source(&source, &child, true).unwrap();
    assert_eq!(t.fs, "dst/copy/a/b");
    assert_eq!(t.host.as_deref(), Some("backup"));
    assert_eq!(t.origin.as_deref(), Some("dst/copy/a@s1"));
    let no_clone = target.child_from_source(&source, &child, false).unwrap();
    assert_eq!(no_clone.origin, None);
    child.origin = Some("other/x@s".to_string());
    assert_eq!(target.child_from_source(&source, &child, true).unwrap().origin, None);
    let stranger = Fs::new(None, "elsewhere/a", Role::Source);
    assert_eq!(target.child_from_source(&source, &stranger, true).unwrap_err().kind, ErrorKind::Other);
    assert_eq!(source.new_child("x".to_string(), "-".to_string()).origin, None);
}

#[test]
fn origins_and_parent_stripping() {
    let mut fs = Fs::new(None, "pool/a", Role::Source);
    assert_eq!(fs.origin_dataset(), None);
    fs.origin = Some("pool/b@snap".to_string());
    assert_eq!(fs.origin_dataset().as_deref(), Some("pool/b"));
    fs.origin = Some("no-at".to_string());
    assert_eq!(fs.origin_dataset(), None);
    assert_eq!(fs.strip_parent_from("pool/a/b/c").as_deref(), Some("b/c"));
    assert_eq!(fs.strip_parent_from("pool/a").as_deref(), Some(""));
    assert_eq!(fs.strip_parent_from("pool/b"), None);
}

#[test]
fn root_detection() {
    assert_eq!(get_is_roots(Some("root@a"), Some("me@b"), false, true), (true, false));
    assert_eq!(get_is_roots(Some("me@a"), Some("me@b"), true, false), (true, true));
    assert_eq!(get_is_roots(None, Some("hostonly"), false, true), (true, true));
    assert_eq!(get_is_roots(None, None, false, false), (false, false));
}

#[test]
fn topological_must_exist() {
    let parent = Fs::new(None, "pool", Role::Source);
    let a = Fs::new(None, "pool/x/a", Role::Source);
    let b = Fs::new(None, "pool/x/b", Role::Source);
    let list = vec![b, a];
    let (order, must) = parent.topological_sort(&list);
    let mut sorted = order.clone();
    sorted.sort();
    assert_eq!(sorted, vec![0, 1]);
    let mut must = must.clone();
    must.sort();
    assert_eq!(must, strings(&["pool", "pool/x"]));
    let (none, nothing) = parent.topological_sort(&Vec::new());
    assert!(none.is_empty() && nothing.is_empty());
}

fn job(command: Option<&[&str]>, tags: &[&str]) -> Job {
    Job {
        command: command.map(strings),
        on_success: None,
        disabled: false,
        source: None,
        target: None,
        tags: strings(tags),
    }
}

fn task(jobs: Vec<Job>, parallel: bool, tags: &[&str]) -> Task {
    Task {
        default_task_command: None,
        disabled: false,
        parallel,
        jobs,
        on_success: None,
        tags: strings(tags),
    }
}

fn project(tasks: Vec<(&str, Task)>) -> Project {
    Project {
        default_project_command: Some(strings(&["echo", "hi"])),
        disabled: false,
        run: None,
        tasks: tasks.into_iter().map(|(n, t)| (n.to_string(), t)).collect(),
    }
}

#[test]
fn normalization_fills_commands_and_tags() {
    let p = project(vec![
        ("single", task(vec![job(None, &["nightly"])], false, &[])),
        ("par", task(vec![job(Some(&["true"]), &["x"]), job(None, &[])], true, &["t"])),
    ]);
    let np = p.normalize("proj").unwrap();
    assert_eq!(np.name, "proj");
    let (name, single) = &np.tasks[0];
    assert_eq!(name, "single");
    assert_eq!(single.tags, strings(&["nightly"]));
    assert_eq!(single.jobs[0].command, strings(&["echo", "hi"]));
    assert_eq!(single.jobs[0].tags, strings(&["nightly"]));
    let (_, par) = &np.tasks[1];
    assert_eq!(par.jobs[0].command, strings(&["true"]));
    assert_eq!(par.jobs[0].tags, strings(&["x", "t"]));
    assert_eq!(par.jobs[1].tags, strings(&["t"]));
    assert_eq!(np.run_config.restart_delay_secs, Vec::<u16>::new());
}

#[test]
fn normalization_rejects_broken_projects() {
    let seq_tags = project(vec![("s", task(vec![job(None, &["a"]), job(None, &[])], false, &[]))]);
    assert!(seq_tags.normalize("p").is_err());
    let mut no_command = project(vec![("s", task(vec![job(None, &[])], false, &[]))]);
    no_command.default_project_command = None;
    assert!(no_command.normalize("p").is_err());
    let empty_command = project(vec![("s", task(vec![job(Some(&[]), &[])], false, &[]))]);
    assert!(empty_command.normalize("p").is_err());
    let bare_chithi = project(vec![("s", task(vec![job(Some(&["chithi"]), &[])], false, &[]))]);
    assert!(bare_chithi.normalize("p").is_err());
    let sync = project(vec![("s", task(vec![job(Some(&["chithi", "sync"]), &[])], false, &[]))]);
    assert!(sync.normalize("p").is_err());
    let bad_tag = project(vec![("s", task(vec![job(None, &[])], false, &["!x"]))]);
    assert!(bad_tag.normalize("p").is_err());
    let mut hooked = task(vec![job(None, &["a"]), job(None, &[])], true, &[]);
    hooked.on_success = Some(strings(&["notify"]));
    assert!(project(vec![("h", hooked)]).normalize("p").is_err());
    assert!(Project::check_tag("ok-tag").is_ok());
    assert!(Project::check_tag("a,b").is_err());
    assert!(Project::check_tag("none").is_err());
}

#[test]
fn enabled_units_of_a_project() {
    let mut off = job(None, &[]);
    off.disabled = true;
    let p = project(vec![
        ("seq", task(vec![job(None, &[])], false, &[])),
        ("par", task(vec![job(None, &[]), off, job(None, &[])], true, &[])),
    ]);
    let np = p.normalize("proj").unwrap();
    let units = np.get_enabled_tasks_or_jobs(None);
    let labels: Vec<String> = units.iter().map(|l| l.display_label()).collect();
    assert_eq!(labels, strings(&["seq", "par.0", "par.2"]));
    let filter = TagFilter::parse("none").unwrap();
    assert_eq!(np.get_enabled_tasks_or_jobs(Some(&filter)).len(), 3);
    let tagged = TagFilter::parse("x").unwrap();
    assert!(np.get_enabled_tasks_or_jobs(Some(&tagged)).is_empty());
    let command = np.tasks[0].1.jobs[0].get_command();
    assert_eq!(command, strings(&["echo", "hi"]));
}

#[test]
fn flattening_groups_and_items() {
    let items = vec![TaskOrJob::Task(1), TaskOrJob::Job(vec![2, 3]), TaskOrJob::Job(vec![]), TaskOrJob::Task(4)];
    assert_eq!(TaskOrJobIter::new(items).collect_all(), vec![1, 2, 3, 4]);
}

#[test]
fn on_success_accounting() {
    let mut pending = Pending::new();
    let a = "a".to_string();
    let b = "b".to_string();
    pending.started(&a);
    pending.started(&a);
    pending.started(&b);
    assert!(!pending.finished(&a, true));
    assert!(pending.finished(&a, true));
    assert!(!pending.finished(&a, true));
    assert!(!pending.finished(&b, false));
    assert!(!pending.finished(&b, true));
}

#[test]
fn command_texts() {
    let far = remote("h", &[]);
    let cmd = Cmd::new(&far, true, "zfs", &strings(&["send", "a b"]));
    assert_eq!(String::from_utf8(cmd.to_text()).unwrap(), "ssh -c aes -p 22 h sudo zfs send 'a b'");
    let local = CmdTarget::new_local();
    let a = Cmd::new(&local, false, "zfs", &strings(&["send", "a b"]));
    let b = Cmd::new(&local, false, "pv", &strings(&[]));
    assert_eq!(String::from_utf8(a.to_text()).unwrap(), "zfs send a b");
    let pipe = Pipeline::from(&local, vec![a.clone(), b.clone()]).unwrap();
    assert_eq!(String::from_utf8(pipe.to_text()).unwrap(), "sh -c -- zfs send a b | pv");
    let seq = Sequence::new(&local, a);
    assert_eq!(String::from_utf8(seq.to_text()).unwrap(), "zfs send a b");
    assert!(cmd.check_outcome(true).is_ok());
    assert_eq!(cmd.check_outcome(false).unwrap_err().kind, ErrorKind::NotFound);
}

#[test]
fn option_and_dataset_texts() {
    let opts = Opts::try_from_str("v o a=b R").unwrap();
    assert_eq!(opts.to_text(), "-vo a=b -R");
    assert_eq!(Fs::new(None, "u@h:pool/a", Role::Source).to_text(), "pool/a on u@h");
    assert_eq!(Fs::new(None, "pool/a", Role::Source).to_text(), "pool/a");
}

#[test]
fn listings_of_a_project() {
    let mut off = job(None, &[]);
    off.disabled = true;
    let mut quoted = job(Some(&["say", "a\"b\tc"]), &[]);
    quoted.source = Some("src".to_string());
    let p = project(vec![
        ("one", task(vec![quoted], false, &[])),
        ("two", task(vec![job(None, &[]), off.clone()], false, &[])),
        ("par", task(vec![job(None, &[]), off], true, &[])),
    ]);
    let np = p.normalize("proj").unwrap();
    let all = np.list_independents(false, None);
    assert_eq!(all.len(), 3);
    let lines = np.listing_lines(&all);
    let labels: Vec<String> = lines.iter().map(|l| l.label.clone()).collect();
    assert_eq!(labels, strings(&["one", "two", "par.0", "par.1"]));
    assert_eq!(lines[0].job, Some((0, 0)));
    assert_eq!(lines[1].job, None);
    assert!(lines[3].disabled);
    let skipping = np.list_independents(true, None);
    let labels: Vec<String> = np.listing_lines(&skipping).iter().map(|l| l.label.clone()).collect();
    assert_eq!(labels, strings(&["one", "two", "par.0"]));
    let row = chithi::listing::long_listing_row("one", false, Some(&np.tasks[0].1.jobs[0]));
    assert_eq!(row, "one\tfalse\tsrc\t\t\"say\" \"a\\\"b\\tc\"");
    assert_eq!(chithi::listing::long_listing_row("two", true, None), "two\ttrue\t\t\t");
}

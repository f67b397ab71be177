//! Tasks, the dispatcher, and the places where commands run.

use ade::clock::Moment;
use ade::dispatcher::{Dispatcher, DispatcherAction};
use ade::keys::EphemeralKey;
use ade::microvm::{shell_quote, MicroVm, PathMapping, PreviewPorts, SshTarget};
use ade::container::container_name_for;
use ade::runtime::Hunk;
use ade::worktree::{hunk_patch, parse_diff, parse_list};
use ade::provider::{strip_ansi, ExecOut, HostProvider, MockWorkspace, WorkspaceProvider};
use ade::task::{cap_text, handoff_summary, Task, TaskStatus, DEFAULT_FAILURE_LIMIT};
use ade::transcript::{Role, TaskId, UnifiedMessage};

#[test]
fn fresh_task_has_no_action() {
    let d = Dispatcher::new();
    let mut d = d;
    let t = Task::new("a", "mock");
    d.track(&t);
    assert!(d.sweep().is_empty());
}

#[test]
fn overdue_task_is_reclaimed() {
    let d = Dispatcher::new();
    let mut d = d;
    let mut t = Task::new("a", "mock");
    t.max_runtime_secs = Some(0);
    d.track(&t);
    let now = d.now().plus_secs(1);
    assert_eq!(d.sweep_at(now), vec![DispatcherAction::Reclaim(t.id)]);
    // Untracked tasks disappear from sweeps.
    d.untrack(&t.id);
    assert!(d.sweep_at(now).is_empty());
}

#[test]
fn two_errors_block_and_win_over_reclaim() {
    let mut d = Dispatcher::new();
    let t = Task::new("a", "mock");
    d.track(&t);
    d.note_error(&t.id);
    assert!(d.sweep().is_empty());
    d.note_error(&t.id);
    let now = d.now().plus_secs(3600);
    assert_eq!(d.sweep_at(now), vec![DispatcherAction::Blocked(t.id)]);
}

#[test]
fn bare_id_tracks_without_deadline() {
    let mut d = Dispatcher::new();
    let id = TaskId::new();
    d.track_id(id);
    assert!(d.sweep().is_empty());
    d.note_error(&id);
    d.note_error(&id);
    assert_eq!(d.sweep(), vec![DispatcherAction::Blocked(id)]);
    d.untrack(&id);
    assert!(d.sweep().is_empty());
}

#[test]
fn heartbeat_keeps_task_fresh() {
    let mut d = Dispatcher::new();
    let t = Task::new("a", "mock");
    d.track(&t);
    d.note_heartbeat(&t.id);
    assert!(d.sweep().is_empty());
    // Unknown ids are ignored, never crash.
    d.note_heartbeat(&TaskId::new());
    d.note_error(&TaskId::new());
}

#[test]
fn per_task_limit_moves_block_threshold() {
    // limit 1: first error blocks immediately.
    let mut d = Dispatcher::new();
    let t = Task::new("a", "mock").with_failure_limit(1);
    d.track(&t);
    d.note_error(&t.id);
    assert_eq!(d.sweep(), vec![DispatcherAction::Blocked(t.id)]);
}

#[test]
fn per_task_limit_tolerates_more_errors() {
    // limit 3: two errors are still silent.
    let mut d = Dispatcher::new();
    let t = Task::new("a", "mock").with_failure_limit(3);
    d.track(&t);
    d.note_error(&t.id);
    d.note_error(&t.id);
    assert!(d.sweep().is_empty());
    d.note_error(&t.id);
    assert_eq!(d.sweep(), vec![DispatcherAction::Blocked(t.id)]);
}

#[test]
fn bare_id_limit_override() {
    let mut d = Dispatcher::new();
    let id = TaskId::new();
    d.track_id_with_limit(id, 1);
    d.note_error(&id);
    assert_eq!(d.sweep(), vec![DispatcherAction::Blocked(id)]);
}

#[test]
fn success_resets_error_streak() {
    let mut d = Dispatcher::new();
    let t = Task::new("a", "mock"); // limit 2
    d.track(&t);
    d.note_error(&t.id);
    d.note_success(&t.id);
    d.note_error(&t.id);
    assert!(
        d.sweep().is_empty(),
        "error→success→error stays under budget"
    );
    d.note_error(&t.id);
    assert_eq!(d.sweep(), vec![DispatcherAction::Blocked(t.id)]);
}

#[test]
fn retrack_keeps_errors_until_untrack() {
    let mut d = Dispatcher::new();
    let t = Task::new("a", "mock");
    d.track(&t);
    d.note_error(&t.id);
    d.track(&t); // second bind must not wipe the count
    d.note_error(&t.id);
    assert_eq!(d.sweep(), vec![DispatcherAction::Blocked(t.id)]);
    // Retry path (untrack + re-track) starts fresh.
    d.untrack(&t.id);
    d.track(&t);
    assert!(d.sweep().is_empty());
}

#[test]
fn full_track_carries_deadline() {
    let mut d = Dispatcher::new();
    let id = TaskId::new();
    d.track_full(id, 2, Some(0));
    let now = d.now().plus_secs(1);
    assert_eq!(d.sweep_at(now), vec![DispatcherAction::Reclaim(id)]);
}

#[test]
fn silence_is_allowed_for_two_intervals() {
    let mut d = Dispatcher::new();
    let id = TaskId(7);
    let start = Moment { nanos: 5 };
    d.track_at(start, id, 2, None);
    assert!(d.sweep_at(start.plus_secs(120)).is_empty());
    let late = start.plus_secs(121);
    assert_eq!(d.sweep_at(late), vec![DispatcherAction::Reclaim(id)]);
    // A heartbeat or a success starts the count anew.
    d.heartbeat_at(start.plus_secs(60), &id);
    assert!(d.sweep_at(start.plus_secs(180)).is_empty());
    d.success_at(start.plus_secs(100), &id);
    assert!(d.sweep_at(start.plus_secs(220)).is_empty());
    assert_eq!(
        d.sweep_at(start.plus_secs(221)),
        vec![DispatcherAction::Reclaim(id)]
    );
}

#[test]
fn deadline_is_inclusive_and_other_tasks_stay_quiet() {
    let mut d = Dispatcher::new();
    let start = Moment { nanos: 0 };
    d.track_at(start, TaskId(9), 2, Some(10));
    d.track_at(start, TaskId(3), 1, None);
    assert!(d.sweep_at(Moment { nanos: 9_999_999_999 }).is_empty());
    d.note_error(&TaskId(3));
    assert_eq!(
        d.sweep_at(start.plus_secs(10)),
        vec![
            DispatcherAction::Blocked(TaskId(3)),
            DispatcherAction::Reclaim(TaskId(9)),
        ]
    );
    d.untrack(&TaskId(3));
    assert_eq!(
        d.sweep_at(start.plus_secs(10)),
        vec![DispatcherAction::Reclaim(TaskId(9))]
    );
}

#[test]
fn echo_roundtrip() {
    let h = HostProvider::new();
    let run = h.launch(&["echo", "hello-host"], "/tmp").unwrap();
    assert_eq!(run.program, "echo");
    assert_eq!(run.args, vec!["hello-host".to_string()]);
    assert_eq!(run.cwd, "/tmp");
    let out = ExecOut::collect(b"hello-host\n", b"", Some(0));
    assert!(out.success());
    assert_eq!(out.stdout.trim(), "hello-host");
    assert_eq!(h.ssh_info(), None);
}

#[test]
fn empty_command_errors() {
    let h = HostProvider::new();
    assert!(h.launch(&[], "/tmp").is_err());
}

#[test]
fn failing_command_reports_code() {
    let h = HostProvider::new();
    let run = h.launch(&["sh", "-c", "exit 3"], "/tmp").unwrap();
    assert_eq!(run.program, "sh");
    assert_eq!(run.args, vec!["-c".to_string(), "exit 3".to_string()]);
    let out = ExecOut::collect(b"", b"", Some(3));
    assert!(!out.success());
    assert_eq!(out.code, Some(3));
}

#[test]
fn killed_command_is_no_success() {
    let out = ExecOut::collect(b"partial", b"bad \xff byte", None);
    assert!(!out.success());
    assert_eq!(out.stdout, "partial");
    assert_eq!(out.stderr, "bad \u{fffd} byte");
}

#[test]
fn mock_shell_is_unsupported() {
    let mut m = MockWorkspace::new();
    assert!(m.shell("/tmp").is_err());
}

#[test]
fn mock_replays_and_records() {
    let mut m = MockWorkspace::new();
    m.enqueue(ExecOut {
        stdout: "hi\n".into(),
        stderr: String::new(),
        code: Some(0),
    });
    let out = m.exec(&["echo", "hi"], "/tmp").unwrap();
    assert!(out.success());
    assert_eq!(out.stdout, "hi\n");
    assert_eq!(m.executed.len(), 1);
    assert_eq!(m.executed[0].0, vec!["echo".to_string(), "hi".to_string()]);
    assert_eq!(m.executed[0].1, "/tmp");
    // Host default: no SSH.
    assert_eq!(m.ssh_info(), None);
    // Empty script errors instead of hanging.
    assert!(m.exec(&["echo"], "/").is_err());
    assert_eq!(m.executed.len(), 2);
}

#[test]
fn ansi_sequences_are_stripped() {
    assert_eq!(strip_ansi("\x1b[32mgreen\x1b[0m"), "green");
    assert_eq!(strip_ansi("plain"), "plain");
    assert_eq!(strip_ansi("a\rb"), "ab");
    assert_eq!(strip_ansi("\x1b(Bbold"), "bold");
    assert_eq!(strip_ansi("dangling\x1b"), "dangling");
}

#[test]
fn stripping_again_changes_nothing() {
    let once = strip_ansi("a\x1b[1;31mb\x1b]0;c\r\n\u{1b}[Kd");
    assert_eq!(strip_ansi(&once), once);
    assert!(!once.contains('\x1b'));
    assert!(!once.contains('\r'));
}

fn target() -> SshTarget {
    SshTarget {
        host: "127.0.0.1".into(),
        port: 4222,
        // Same as the live guest user.
        user: "ubuntu".into(),
        key_path: "/tmp/id".into(),
    }
}

fn mounted() -> PathMapping {
    PathMapping::Mounted {
        host_root: "/repo".into(),
        guest_root: "/workspace".into(),
    }
}

#[test]
fn quote_basics() {
    assert_eq!(shell_quote("echo"), "echo");
    assert_eq!(shell_quote(""), "''");
    assert_eq!(shell_quote("a b"), "'a b'");
    assert_eq!(shell_quote("it's"), "'it'\\''s'");
}

#[test]
fn exec_builds_ssh_command() {
    let vm = MicroVm::new(target(), PathMapping::Identity).with_ssh_bin("fake-ssh".to_string());
    assert_eq!(vm.ssh_bin(), "fake-ssh");
    let argv = vm
        .exec_with_env(&["echo", "hi there"], "/repo", &[])
        .unwrap()
        .join(" ");
    assert!(argv.contains("-p 4222"), "{argv}");
    assert!(argv.contains("ubuntu@127.0.0.1"), "{argv}");
    assert!(argv.contains("cd /repo && echo 'hi there'"), "{argv}");
    let out = ExecOut::collect(b"hello\n", b"", Some(0));
    assert!(out.success());
    assert_eq!(out.stdout, "hello\n");
    // Provider reports the guest (unlike Host's None).
    assert_eq!(vm.ssh_info().unwrap().port, 4222);
}

#[test]
fn env_injection_and_mounted_paths() {
    let vm = MicroVm::new(target(), mounted());
    let argv = vm
        .exec_with_env(
            &["make", "test"],
            "/repo/sub",
            &[("API_KEY", "s3cr3t"), ("EMPTY", "")],
        )
        .unwrap()
        .join(" ");
    assert!(argv.contains("cd /workspace/sub"), "{argv}");
    assert!(argv.contains("env API_KEY=s3cr3t EMPTY=''"), "{argv}");
}

#[test]
fn cwd_outside_mount_errors() {
    let vm = MicroVm::new(target(), mounted());
    assert!(vm.exec_with_env(&["ls"], "/elsewhere", &[]).is_err());
}

#[test]
fn empty_remote_command_errors() {
    let vm = MicroVm::new(target(), PathMapping::Identity);
    assert!(vm.exec_with_env(&[], "/repo", &[]).is_err());
}

#[test]
fn shell_argv_lists_forwards() {
    let mut vm = MicroVm::new(target(), PathMapping::Identity);
    vm.add_forward(3000, 4105);
    let argv = vm.shell_args().join(" ");
    assert!(argv.contains("-i /tmp/id"), "{argv}");
    assert!(argv.contains("-p 4222"), "{argv}");
    assert!(argv.contains("-L 4105:localhost:3000"), "{argv}");
    assert!(argv.contains("ubuntu@127.0.0.1"), "{argv}");
}

#[test]
fn preview_ports_allocate_in_range_and_exhaust() {
    let mut ports = PreviewPorts::new();
    assert_eq!(ports.allocate().unwrap(), 4100);
    assert_eq!(ports.allocate().unwrap(), 4101);
    for _ in 0..98 {
        ports.allocate().unwrap();
    }
    assert!(ports.allocate().is_err());
}

#[test]
fn new_task_has_unique_ids() {
    let a = Task::new("feat-a", "opencode");
    let b = Task::new("feat-a", "opencode");
    assert_ne!(a.id, b.id);
    assert_eq!(a.slug, "feat-a");
    assert!(a.model_override.is_none());
}

#[test]
fn model_override_builder() {
    let t = Task::new("x", "codex").with_model("anthropic", "sonnet");
    assert_eq!(
        t.model_override,
        Some(("anthropic".into(), "sonnet".into()))
    );
}

#[test]
fn default_budget_blocks_on_second_error() {
    let mut t = Task::new("x", "mock");
    assert_eq!(t.failure_limit, DEFAULT_FAILURE_LIMIT);
    assert_eq!(t.status, TaskStatus::Active);
    assert_eq!(t.note_failure(), TaskStatus::Retrying);
    assert_eq!(t.note_failure(), TaskStatus::Blocked);
    // Blocked sticks: no counter growth, success can't clear it.
    assert_eq!(t.note_failure(), TaskStatus::Blocked);
    assert_eq!(t.failure_count, 2);
    t.note_success();
    assert_eq!(t.status, TaskStatus::Blocked);
}

#[test]
fn custom_limit_and_manual_retry() {
    let mut t = Task::new("x", "mock").with_failure_limit(1);
    assert_eq!(t.note_failure(), TaskStatus::Blocked);
    t.retry_reset();
    assert_eq!(t.status, TaskStatus::Active);
    assert_eq!(t.failure_count, 0);
    // Success below budget restores Active.
    let mut u = Task::new("y", "mock").with_failure_limit(3);
    assert_eq!(u.note_failure(), TaskStatus::Retrying);
    u.note_success();
    assert_eq!(u.status, TaskStatus::Active);
    assert_eq!(u.failure_count, 0);
    // Zero limit clamps to 1 (a fresh task must never sweep-blocked).
    assert_eq!(
        Task::new("z", "mock").with_failure_limit(0).failure_limit,
        1
    );
}

#[test]
fn child_links_parent_and_inherits_context() {
    let mut parent = Task::new("feat-a", "mock")
        .with_failure_limit(3)
        .with_summary("tried X, stuck on Y");
    parent.note_failure();
    let kid = parent.child("feat-a-retry", "mock");
    assert_ne!(kid.id, parent.id);
    assert_eq!(kid.parent, Some(parent.id));
    assert_eq!(kid.summary.as_deref(), Some("tried X, stuck on Y"));
    // Fresh budget, same limit — but the failure streak stays behind.
    assert_eq!(kid.failure_limit, 3);
    assert_eq!(kid.failure_count, 0);
    assert_eq!(kid.status, TaskStatus::Active);
    // Grandchildren point at their direct parent (chain, not root).
    let grand = kid.child("feat-a-retry2", "mock");
    assert_eq!(grand.parent, Some(kid.id));
    assert_eq!(grand.summary, kid.summary);
}

#[test]
fn fresh_task_has_no_parent_or_summary() {
    let t = Task::new("x", "mock");
    assert_eq!(t.parent, None);
    assert_eq!(t.summary, None);
}

fn um(task: TaskId, role: Role, text: &str) -> UnifiedMessage {
    UnifiedMessage {
        id: format!("{}-{}", task.to_text(), text.len()),
        task,
        role,
        text: text.into(),
        tool: None,
        ts: 0,
    }
}

#[test]
fn handoff_summary_takes_tail_and_caps() {
    let id = TaskId::new();
    let msgs = vec![
        um(id, Role::User, "old prompt"),
        um(id, Role::Agent, "did X\nmore detail"),
        um(id, Role::Tool, "   "),
        um(id, Role::Agent, "stuck on Y"),
    ];
    assert_eq!(
        handoff_summary(&msgs, 3, 500).as_deref(),
        Some("agent: did X\nagent: stuck on Y")
    );
    // Empty / whitespace-only input → None.
    assert_eq!(handoff_summary(&[], 3, 500), None);
    assert_eq!(handoff_summary(&msgs[2..3], 3, 500), None);
    // Cap truncates by chars with an ellipsis marker.
    let long = handoff_summary(&msgs[3..], 3, 10);
    assert!(long.is_some_and(|s| s.ends_with('…') && s.chars().count() == 11));
}

#[test]
fn capped_text_keeps_short_text_whole() {
    assert_eq!(cap_text("grün", 4), "grün");
    assert_eq!(cap_text("grün", 3), "grü…");
}

#[test]
fn attached_key_stays_with_its_machine() {
    let key = || EphemeralKey::from_parts("/tmp/ade-key", "ssh-ed25519 AAAA x\n");
    let mut vm = MicroVm::new(target(), PathMapping::Identity);
    assert!(vm.key().is_none());
    vm = vm.attach_ephemeral(key()).with_ssh_bin("fake-ssh".to_string());
    vm.add_forward(3000, 40000);
    assert_eq!(vm.key().unwrap().dir(), "/tmp/ade-key");
    assert_eq!(vm.key().unwrap().priv_path(), key().priv_path());
}

#[test]
fn cloned_ports_go_on_alike() {
    let mut a = PreviewPorts::new();
    assert_eq!(a.allocate().unwrap(), 4100);
    let mut b = a.clone();
    assert_eq!(a.allocate().unwrap(), 4101);
    assert_eq!(b.allocate().unwrap(), 4101);
}

#[test]
fn container_is_named_by_its_path() {
    assert_eq!(container_name_for("/repo/My_wt.1"), "ade-repo-My-wt-1");
}

#[test]
fn worktree_list_is_read() {
    let out = "worktree /repo\nHEAD 1a\nbranch refs/heads/main\n\nworktree /repo/.ade-worktrees/x\nHEAD 2b\ndetached\n\n";
    let infos = parse_list(out);
    assert_eq!(infos.len(), 2);
    assert_eq!(infos[0].path, "/repo");
    assert_eq!(infos[0].branch.as_deref(), Some("main"));
    assert_eq!(infos[1].path, "/repo/.ade-worktrees/x");
    assert_eq!(infos[1].branch, None);
    assert!(parse_list("branch refs/heads/lost\n").is_empty());
}

#[test]
fn checkout_diff_is_counted_by_file() {
    let raw = "diff --git a/x b/x\n--- a/x\n+++ b/x\n@@ -1 +1,2 @@\n-a\n+b\n+c\ndiff --git a/y b/y\n-z\n";
    let d = parse_diff(raw);
    assert_eq!(d.len(), 2);
    assert_eq!(d[0].file.as_deref(), Some("x"));
    assert_eq!((d[0].additions, d[0].deletions), (2, 1));
    assert_eq!(d[1].patch.as_deref(), Some("diff --git a/y b/y\n-z\n"));
    let bare = parse_diff("+one\n");
    assert_eq!(bare[0].file.as_deref(), Some("(working tree)"));
    assert_eq!(bare[0].additions, 1);
    assert!(parse_diff(" \n").is_empty());
}

#[test]
fn hunks_make_a_patch() {
    let hunks = vec![
        Hunk { text: "@@ -1 +1 @@\n-a\n+b\n".into() },
        Hunk { text: "@@ -9 +9 @@\n-c\n+d".into() },
    ];
    assert_eq!(
        hunk_patch("f.rs", &hunks),
        "--- a/f.rs\n+++ b/f.rs\n@@ -1 +1 @@\n-a\n+b\n@@ -9 +9 @@\n-c\n+d\n"
    );
}

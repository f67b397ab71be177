//! The mirror: worktrees, sessions, messages, review order, and what reports
//! and commands change in it.

use ade::context::{compile, est_tokens, SectionKind};
use ade::events::{event_session_id, Event};
use ade::review::{
    append_reply, drop_note, format_review_notes, parse_patch_lines, resolve_range, split_files,
    take_notes, DiffNote,
};
use ade::runtime::{
    adopt_worktree, discover_worktrees, poll_plan, session_title, sweep_due, Action, Command, FanStep, LoopState,
    PermissionResponse, Trouble, WorktreeInfo,
};
use ade::session::{
    same_double, EntryLine, FileDiff, MessageEntry, PendingPermission, Session, SessionStatus,
    Todo, Usage, WorktreeRecord, WorktreeStatus,
};
use ade::store::Store;
use ade::transcript::{Role, TaskId, UnifiedMessage};

fn session(updated: u64) -> Session {
    Session {
        title: "test session".into(),
        updated,
    }
}

fn created(id: &str, updated: u64) -> Event {
    Event::SessionCreated {
        session_id: id.into(),
        session: session(updated),
    }
}

fn asked(pid: &str, sid: &str) -> Event {
    Event::PermissionAsked(PendingPermission {
        permission_id: pid.into(),
        session_id: sid.into(),
        kind: "bash".into(),
        patterns: vec![],
        command: None,
    })
}

fn record(slug: &str) -> WorktreeRecord {
    WorktreeRecord::new("/repo", slug).unwrap()
}

fn bits(u: (f64, f64, f64, f64)) -> Usage {
    Usage {
        input: u.0.to_bits(),
        output: u.1.to_bits(),
        cache: u.2.to_bits(),
        cost: u.3.to_bits(),
    }
}

#[test]
fn session_created_becomes_active() {
    let mut s = Store::default();
    s.apply_event(created("ses_1", 2));
    assert_eq!(s.active_session.as_deref(), Some("ses_1"));
    assert_eq!(s.sessions.get("ses_1").unwrap().title, "test session");
}

#[test]
fn status_busy_marks_busy() {
    let mut s = Store {
        active_session: Some("ses_1".into()),
        ..Default::default()
    };
    s.apply_event(Event::SessionStatus {
        session_id: "ses_1".into(),
        status: SessionStatus::Busy,
    });
    assert!(matches!(
        s.statuses.get("ses_1"),
        Some(SessionStatus::Busy)
    ));
    assert!(s.is_busy());
}

#[test]
fn session_idle_clears_busy() {
    let mut s = Store {
        active_session: Some("ses_1".into()),
        ..Default::default()
    };
    s.statuses.insert("ses_1".into(), SessionStatus::Busy);
    s.apply_event(Event::SessionIdle {
        session_id: "ses_1".into(),
    });
    assert!(matches!(
        s.statuses.get("ses_1"),
        Some(SessionStatus::Idle)
    ));
    assert!(!s.is_busy());
}

#[test]
fn permission_asked_collects_pending() {
    let mut s = Store::default();
    s.apply_event(Event::PermissionAsked(PendingPermission {
        permission_id: "per_1".into(),
        session_id: "ses_1".into(),
        kind: "bash".into(),
        patterns: vec!["cargo *".into()],
        command: Some("cargo test".into()),
    }));
    let p = s.pending_permissions.get("per_1").unwrap();
    assert_eq!(p.session_id, "ses_1");
    assert_eq!(p.kind, "bash");
    assert_eq!(p.patterns, vec!["cargo *".to_string()]);
}

#[test]
fn permission_replied_clears_pending() {
    let mut s = Store::default();
    s.apply_event(asked("per_1", "ses_1"));
    s.apply_event(Event::PermissionReplied {
        session_id: "ses_1".into(),
        request_id: "per_1".into(),
    });
    assert!(s.pending_permissions.is_empty());
}

#[test]
fn message_updated_upserts_info() {
    let mut s = Store::default();
    let user = || Event::MessageUpdated {
        session_id: "ses_1".into(),
        id: "msg_1".into(),
        usage: None,
    };
    s.apply_event(user());
    assert_eq!(s.messages.get("ses_1").unwrap().len(), 1);
    // Second update for the same id replaces instead of duplicating.
    s.apply_event(user());
    assert_eq!(s.messages.get("ses_1").unwrap().len(), 1);
}

#[test]
fn message_update_keeps_lines_and_counts_cost() {
    let mut s = Store::default();
    s.set_messages("ses_1", vec![entry("msg_1", Role::Agent, "working")]);
    let cost = bits((10.0, 5.0, 1.0, 0.25));
    s.apply_event(Event::MessageUpdated {
        session_id: "ses_1".into(),
        id: "msg_1".into(),
        usage: Some(cost),
    });
    let m = &s.messages.get("ses_1").unwrap()[0];
    assert_eq!(m.lines.len(), 1);
    assert_eq!(m.lines[0].text, "working");
    assert_eq!(s.totals.len(), 1);
    assert!(s.totals[0].same(&cost));
    assert_eq!(s.transcript_for_session("ses_1").len(), 1);
}

#[test]
fn todo_updated_stores_todos() {
    let mut s = Store::default();
    s.apply_event(Event::TodoUpdated {
        session_id: "ses_1".into(),
        todos: vec![Todo {
            content: "write tests".into(),
            status: "in_progress".into(),
        }],
    });
    assert_eq!(s.todos.get("ses_1").unwrap()[0].content, "write tests");
}

#[test]
fn session_deleted_falls_back_active() {
    let mut s = Store::default();
    for id in ["ses_1", "ses_2"] {
        s.apply_event(created(id, 2));
    }
    assert_eq!(s.active_session.as_deref(), Some("ses_1"));
    s.apply_event(Event::SessionDeleted {
        session_id: "ses_1".into(),
    });
    assert!(!s.sessions.contains_key("ses_1"));
    assert_eq!(s.active_session.as_deref(), Some("ses_2"));
}

#[test]
fn retired_session_frames_are_dropped() {
    let mut s = Store::default();
    s.apply_event(created("ses_1", 2));
    s.session_scope.insert("ses_1".into(), "feat-a".into());
    s.retire_session("ses_1");
    assert!(!s.sessions.contains_key("ses_1"));

    // A late status frame must not resurrect anything.
    s.apply_event(Event::SessionStatus {
        session_id: "ses_1".into(),
        status: SessionStatus::Busy,
    });
    assert!(!s.statuses.contains_key("ses_1"));
    s.apply_event(created("ses_1", 3));
    assert!(!s.sessions.contains_key("ses_1"));

    // event_session_id covers the variants the pumps route on.
    assert_eq!(event_session_id(&asked("per_9", "ses_9")), Some("ses_9"));
    assert_eq!(event_session_id(&Event::Other), None);
}

#[test]
fn listed_sessions_keep_their_place() {
    let mut s = Store::new();
    s.on_listed("fix", "s1".into(), session(1));
    assert_eq!(s.active_session.as_deref(), Some("s1"));
    assert_eq!(s.scope_of("s1"), "fix");
    s.on_listed("other", "s1".into(), session(2));
    assert_eq!(s.scope_of("s1"), "fix");
    assert_eq!(s.sessions.get("s1").unwrap().updated, 2);
    s.on_listed("", "s2".into(), session(3));
    assert_eq!(s.scope_of("s2"), "");
    assert_eq!(s.active_session.as_deref(), Some("s1"));
    s.retire_session("s1");
    s.on_listed("fix", "s1".into(), session(4));
    assert!(s.sessions.get("s1").is_none());
}

#[test]
fn worktree_status_derives_from_session() {
    let mut s = Store::default();
    // No session yet -> Creating.
    s.worktrees.insert("feat-a".into(), record("feat-a"));
    assert_eq!(s.worktree_status("feat-a"), WorktreeStatus::Creating);

    // Link a session: no messages, idle -> still Creating.
    let mut r = record("feat-a");
    r.session_id = Some("ses_1".into());
    s.worktrees.insert(r.slug.clone(), r);
    s.session_scope.insert("ses_1".into(), "feat-a".into());
    s.apply_event(created("ses_1", 2));
    assert_eq!(s.worktree_status("feat-a"), WorktreeStatus::Creating);

    // Busy -> Working.
    s.statuses.insert("ses_1".into(), SessionStatus::Busy);
    assert_eq!(s.worktree_status("feat-a"), WorktreeStatus::Working);

    // Pending permission beats busy -> NeedsYou.
    s.apply_event(asked("per_1", "ses_1"));
    assert_eq!(s.worktree_status("feat-a"), WorktreeStatus::NeedsYou);
}

#[test]
fn quiet_worktree_with_messages_is_done() {
    let mut s = Store::default();
    let mut r = record("feat-a");
    r.session_id = Some("ses_1".into());
    s.upsert_worktree(r);
    s.set_messages("ses_1", vec![entry("m", Role::Agent, "finished")]);
    assert_eq!(s.worktree_status("feat-a"), WorktreeStatus::Done);
    s.statuses.insert(
        "ses_1".into(),
        SessionStatus::Retry {
            attempt: 1,
            message: "overloaded".into(),
        },
    );
    assert_eq!(s.worktree_status("feat-a"), WorktreeStatus::Working);
    assert_eq!(s.worktree_status("nope"), WorktreeStatus::Creating);
}

#[test]
fn sessions_group_by_scope() {
    let mut s = Store::default();
    for id in ["ses_1", "ses_2", "ses_3"] {
        s.apply_event(created(id, 2));
    }
    s.session_scope.insert("ses_1".into(), "feat-a".into());
    s.session_scope.insert("ses_2".into(), "feat-a".into());
    // ses_3 stays in root scope.
    assert_eq!(s.sessions_in_scope("feat-a").len(), 2);
    assert_eq!(s.sessions_in_scope(""), vec!["ses_3".to_string()]);
    assert_eq!(s.scope_of("ses_9"), "");
}

#[test]
fn newest_session_comes_first_in_its_scope() {
    let mut s = Store::default();
    s.apply_event(created("a", 1));
    s.apply_event(created("b", 9));
    s.apply_event(created("c", 1));
    assert_eq!(s.sessions_in_scope(""), vec!["b", "a", "c"]);
}

#[test]
fn format_review_notes_renders_items() {
    let notes = vec![
        DiffNote {
            session_id: "ses_1".into(),
            file: "a.rs".into(),
            line: 12,
            end_line: None,
            text: "rename this".into(),
            replies: vec!["sure, done".into()],
        },
        DiffNote {
            session_id: "ses_1".into(),
            file: "b.rs".into(),
            line: 3,
            end_line: Some(7),
            text: "add test".into(),
            replies: Vec::new(),
        },
        DiffNote {
            session_id: "ses_1".into(),
            file: "c.rs".into(),
            line: 5,
            end_line: Some(5),
            text: "single".into(),
            replies: Vec::new(),
        },
    ];
    let body = format_review_notes(&notes);
    assert!(body.contains("a.rs:12 — rename this"));
    assert!(body.contains("↳ sure, done"));
    assert!(body.contains("b.rs:3-7 — add test"));
    assert!(body.contains("c.rs:5 — single"));

    // Two-click range machine: first click anchors, second resolves.
    let click = ("s".to_string(), "f".to_string(), 12u32);
    let (anchor, range) = resolve_range(None, click.clone());
    assert_eq!(anchor, Some(click.clone()));
    assert_eq!(range, None);
    // Second click below → range; order normalized either way.
    let (anchor2, range2) =
        resolve_range(anchor.clone(), ("s".to_string(), "f".to_string(), 18u32));
    assert_eq!(anchor2, None);
    assert_eq!(range2, Some((12, 18)));
    let (_, range3) = resolve_range(anchor, ("s".to_string(), "f".to_string(), 8u32));
    assert_eq!(range3, Some((8, 12)));
    // Clicking the anchor line itself → single line, anchor cleared.
    let (_, range4) = resolve_range(
        Some(("s".to_string(), "f".to_string(), 12u32)),
        ("s".to_string(), "f".to_string(), 12u32),
    );
    assert_eq!(range4, Some((12, 12)));
    // Different file/session moves the anchor instead of ranging.
    let (anchor5, range5) = resolve_range(
        Some(("s".to_string(), "f".to_string(), 12u32)),
        ("s".to_string(), "g".to_string(), 20u32),
    );
    assert_eq!(range5, None);
    assert_eq!(anchor5, Some(("s".to_string(), "g".to_string(), 20u32)));
}

#[test]
fn no_notes_leave_the_heading_alone() {
    assert_eq!(
        format_review_notes(&[]),
        "Review feedback — please address each item:\n"
    );
}

#[test]
fn append_reply_targets_note_by_value() {
    let mut notes = vec![DiffNote {
        session_id: "s".into(),
        file: "a.rs".into(),
        line: 1,
        end_line: None,
        text: "fix".into(),
        replies: Vec::new(),
    }];
    let target = notes[0].clone();
    assert!(append_reply(&mut notes, &target, "on it".into()));
    assert_eq!(notes[0].replies, vec!["on it".to_string()]);
    // Stale target (note edited/deleted meanwhile) fails cleanly.
    assert!(!append_reply(&mut notes, &target, "late".into()));
    assert!(!append_reply(&mut [], &target, "empty".into()));
}

fn note(sid: &str, line: u32) -> DiffNote {
    DiffNote {
        session_id: sid.into(),
        file: "a.rs".into(),
        line,
        end_line: None,
        text: "fix".into(),
        replies: Vec::new(),
    }
}

#[test]
fn notes_are_taken_and_dropped_by_session() {
    let all = vec![note("s", 1), note("t", 2), note("s", 3)];
    let (mine, others) = take_notes(all.clone(), "s");
    assert_eq!(mine, vec![note("s", 1), note("s", 3)]);
    assert_eq!(others, vec![note("t", 2)]);
    assert_eq!(
        drop_note(all, &note("s", 1)),
        vec![note("t", 2), note("s", 3)]
    );
}

#[test]
fn combined_diff_splits_at_its_files() {
    let raw = "preamble\ndiff --git a/x.rs b/x.rs\n+1\ndiff --git \"a/y z\" \"b/y z\"\n-2\n";
    let parts = split_files(raw);
    assert_eq!(parts.len(), 2);
    assert_eq!(parts[0].0.as_deref(), Some("x.rs"));
    assert_eq!(parts[0].1, "diff --git a/x.rs b/x.rs\n+1\n");
    assert_eq!(parts[1].0.as_deref(), Some("y z"));
    assert!(parts[1].1.ends_with("-2\n"));
    let odd = "diff --git a/q \"b/\\303\\251 b/x\"\ndiff --git \"a/m n\" b/k\n";
    let names: Vec<Option<String>> = split_files(odd).into_iter().map(|s| s.0).collect();
    assert_eq!(
        names,
        vec![Some("\\303\\251 b/x".to_string()), Some("k".to_string())]
    );
    assert!(split_files("@@ -1 +1 @@\n-a\n").is_empty());
}

#[test]
fn parse_patch_lines_multi_hunk() {
    let patch = "--- a/f.rs\n+++ b/f.rs\n@@ -1,3 +1,4 @@\n ctx\n-old\n+new1\n+new2\n ctx2\n@@ -10,2 +11,2 @@\n-old2\n+new3\n";
    let lines = parse_patch_lines(patch);
    let numbered: Vec<(Option<u32>, &str)> =
        lines.iter().map(|l| (l.line, l.text.as_str())).collect();
    assert!(numbered
        .iter()
        .any(|(n, t)| n.is_none() && t.starts_with("@@")));
    // First hunk: ctx=1, -old=old-file 2, +new1=2, +new2=3, ctx2=4.
    let texts: Vec<&str> = numbered.iter().map(|(_, t)| *t).collect();
    let at = |t: &str| numbered.iter().find(|(_, x)| *x == t).unwrap().0;
    assert_eq!(at(" ctx"), Some(1));
    assert_eq!(at("-old"), Some(2));
    assert_eq!(at("+new1"), Some(2));
    assert_eq!(at("+new2"), Some(3));
    assert_eq!(at(" ctx2"), Some(4));
    // Second hunk restarts counters: -old2=old 10, +new3=new 11.
    assert_eq!(at("-old2"), Some(10));
    assert_eq!(at("+new3"), Some(11));
    assert!(texts.contains(&"--- a/f.rs"));
}

fn create_review_session(s: &mut Store, id: &str, updated: u64, scope: &str) {
    s.apply_event(created(id, updated));
    if !scope.is_empty() {
        s.session_scope.insert(id.to_string(), scope.to_string());
    }
    s.diffs.insert(id.to_string(), Some(vec![]));
}

#[test]
fn review_queue_needs_you_first_then_oldest() {
    let mut s = Store::default();
    create_review_session(&mut s, "ses_new", 300, "wt-a");
    create_review_session(&mut s, "ses_old", 100, "wt-b");
    create_review_session(&mut s, "ses_mid", 200, "");
    // Baseline: oldest activity first.
    assert_eq!(
        s.sort_review_sids(vec!["ses_new".into(), "ses_old".into(), "ses_mid".into()]),
        vec![
            "ses_old".to_string(),
            "ses_mid".to_string(),
            "ses_new".to_string()
        ]
    );
    // A pending permission jumps its session to the front.
    s.apply_event(asked("per_1", "ses_new"));
    let sorted = s.sort_review_sids(vec!["ses_new".into(), "ses_old".into(), "ses_mid".into()]);
    assert_eq!(
        sorted,
        vec![
            "ses_new".to_string(),
            "ses_old".to_string(),
            "ses_mid".to_string()
        ]
    );
    // Scopes queue by their longest waiter — main competes on merit.
    assert_eq!(
        s.sort_review_scopes(vec!["".into(), "wt-a".into(), "wt-b".into()]),
        vec!["wt-a".to_string(), "wt-b".to_string(), "".to_string()]
    );
}

#[test]
fn review_queue_sinks_unknown_sessions() {
    let mut s = Store::default();
    create_review_session(&mut s, "ses_known", 50, "");
    let sorted = s.sort_review_sids(vec!["ses_ghost".into(), "ses_known".into()]);
    assert_eq!(
        sorted,
        vec!["ses_known".to_string(), "ses_ghost".to_string()]
    );
}

#[test]
fn parse_patch_lines_ignores_later_file_headers() {
    let patch = "@@ -1,1 +1,1 @@\n-a\n+b\ndiff --git a/g.rs b/g.rs\nindex 123..456 100644\n--- a/g.rs\n+++ b/g.rs\n@@ -5,1 +5,1 @@\n-x\n+y\nnew file mode 100644\nBinary files a/i.png and b/i.png differ\n";
    let lines = parse_patch_lines(patch);
    let numbered: Vec<(Option<u32>, &str)> =
        lines.iter().map(|l| (l.line, l.text.as_str())).collect();
    let at = |t: &str| numbered.iter().find(|(_, x)| *x == t).unwrap().0;
    // File-boundary lines are never numbered, even mid-stream.
    for h in [
        "diff --git a/g.rs b/g.rs",
        "index 123..456 100644",
        "--- a/g.rs",
        "+++ b/g.rs",
        "new file mode 100644",
        "Binary files a/i.png and b/i.png differ",
    ] {
        assert_eq!(at(h), None, "{h} must not be numbered");
    }
    // Content numbering still works on both sides of the boundary.
    assert_eq!(at("-a"), Some(1));
    assert_eq!(at("+b"), Some(1));
    assert_eq!(at("-x"), Some(5));
    assert_eq!(at("+y"), Some(5));
}

#[test]
fn upsert_sets_first_active() {
    let mut s = Store::default();
    s.upsert_worktree(record("feat-a"));
    assert_eq!(s.active_worktree.as_deref(), Some("feat-a"));
    s.upsert_worktree(record("feat-b"));
    assert_eq!(s.active_worktree.as_deref(), Some("feat-a"));
}

#[test]
fn remove_falls_back_active() {
    let mut s = Store::default();
    s.upsert_worktree(record("feat-a"));
    s.upsert_worktree(record("feat-b"));
    s.set_active("feat-b");
    assert!(s.remove_worktree("feat-b"));
    assert_eq!(s.active_worktree.as_deref(), Some("feat-a"));
}

#[test]
fn set_active_rejects_unknown() {
    let mut s = Store::default();
    assert!(!s.set_active("nope"));
}

#[test]
fn blocked_mirror_round_trip() {
    let mut s = Store::default();
    let a = TaskId::new();
    let b = TaskId::new();
    assert!(!s.is_blocked_slug("wt-a"));
    s.mark_blocked(a, "wt-a".into());
    s.mark_blocked(b, "wt-b".into());
    assert!(s.is_blocked_slug("wt-a"));
    assert!(s.is_blocked_slug("wt-b"));
    // Clearing one slug leaves the other alone.
    assert_eq!(s.clear_blocked_by_slug("wt-a"), vec![a]);
    assert!(!s.is_blocked_slug("wt-a"));
    assert!(s.is_blocked_slug("wt-b"));
    // Unknown slugs clear nothing, never crash.
    assert!(s.clear_blocked_by_slug("nope").is_empty());
}

fn entry(id: &str, role: Role, text: &str) -> MessageEntry {
    MessageEntry {
        id: id.into(),
        lines: vec![EntryLine {
            id: format!("{id}-p1"),
            role,
            text: text.into(),
            tool: None,
            ts: 7,
        }],
        usage: None,
    }
}

#[test]
fn set_messages_mirrors_transcript() {
    let mut s = Store::default();
    s.set_messages("s1", vec![entry("u1", Role::User, "hello mirror")]);
    // Legacy still authoritative …
    assert_eq!(s.messages.get("s1").unwrap().len(), 1);
    // … and the unified mirror follows.
    let t = s.transcript_for_session("s1");
    assert_eq!(t.len(), 1);
    assert_eq!(t[0].role, Role::User);
    assert_eq!(t[0].text, "hello mirror");
    // Stable mapping: second write lands in the same task.
    let task = t[0].task;
    assert_eq!(s.task_for_session("s1"), task);
    s.set_messages("s1", vec![entry("u1", Role::User, "hello mirror")]);
    assert_eq!(s.transcript_for_session("s1").len(), 1);
}

#[test]
fn retire_drops_mirror_pending_and_totals() {
    let mut s = Store::default();
    let task = s.task_for_session("s1");
    s.push_unified(UnifiedMessage {
        id: "m1".into(),
        task,
        role: Role::Agent,
        text: "x".into(),
        tool: None,
        ts: 0,
    });
    s.costs.insert(task, bits((1.0, 0.0, 0.0, 0.1)));
    s.pending_permissions.insert(
        "p1".into(),
        PendingPermission {
            permission_id: "p1".into(),
            session_id: "s1".into(),
            kind: String::new(),
            patterns: vec![],
            command: None,
        },
    );
    s.totals = vec![bits((99.0, 0.0, 0.0, 0.0))];
    s.retire_session("s1");
    assert!(!s.transcripts.contains_key(&task));
    assert!(!s.costs.contains_key(&task));
    assert!(!s.session_task.contains_key("s1"));
    assert!(s.pending_permissions.is_empty());
    // Totals recomputed over the remaining (empty) messages.
    let input: f64 = s.totals.iter().map(|u| f64::from_bits(u.input)).sum();
    assert_eq!(input, 0.0);
    assert!(s.totals.is_empty());
}

#[test]
fn only_the_last_errors_are_kept() {
    let mut s = Store::default();
    for i in 0..25 {
        s.push_error(format!("e{i}"));
    }
    assert_eq!(s.errors.len(), 20);
    assert_eq!(s.errors.front().map(String::as_str), Some("e5"));
    assert_eq!(s.errors.back().map(String::as_str), Some("e24"));
}

#[test]
fn doubles_are_compared_as_doubles() {
    assert!(same_double(0.0f64.to_bits(), (-0.0f64).to_bits()));
    assert!(!same_double(f64::NAN.to_bits(), f64::NAN.to_bits()));
    assert!(same_double(1.5f64.to_bits(), 1.5f64.to_bits()));
    assert!(!same_double(1.5f64.to_bits(), 2.5f64.to_bits()));
}

#[test]
fn awkward_worktree_names_are_refused() {
    let r = record("feat-a");
    assert_eq!(r.path, "/repo/.ade-worktrees/feat-a");
    assert_eq!(r.status, WorktreeStatus::Creating);
    assert_eq!(r.session_id, None);
    assert!(WorktreeRecord::new("/repo", "").is_err());
    assert!(WorktreeRecord::new("/repo", "../up").is_err());
}

#[test]
fn sweep_cadence_is_60s_over_2s_poll() {
    assert!(!sweep_due(1));
    assert!(!sweep_due(29));
    assert!(sweep_due(30));
    assert!(sweep_due(60));
}

#[test]
fn drop_scope_retires_sessions_and_clears_worktree() {
    let mut st = LoopState::new(".");
    st.store.session_scope.insert("s1".into(), "wt-a".into());
    st.store.session_scope.insert("s2".into(), "wt-a".into());
    st.store.active_worktree = Some("wt-a".into());
    st.pumped.insert("wt-a".into(), ());
    st.drop_scope("wt-a", &vec!["s1".into(), "s2".into()]);
    assert!(st.store.retired_sessions.contains_key("s1"));
    assert!(st.store.retired_sessions.contains_key("s2"));
    assert!(!st.store.session_scope.contains_key("s1"));
    assert!(st.pumped.is_empty());
    assert_ne!(st.store.active_worktree.as_deref(), Some("wt-a"));
}

#[test]
fn scoped_sessions_filters_by_slug() {
    let mut st = LoopState::new(".");
    st.store.session_scope.insert("s1".into(), "wt-a".into());
    st.store.session_scope.insert("s2".into(), "wt-b".into());
    assert_eq!(st.scoped_sessions("wt-a"), vec!["s1".to_string()]);
}

#[test]
fn prompt_needs_a_session() {
    let mut st = LoopState::new("/repo");
    let a = st.handle_command(Command::Prompt { text: "hi".into() });
    assert!(matches!(a, Action::Nothing));
    assert_eq!(st.store.errors.len(), 1);
    st.store.active_session = Some("s1".into());
    match st.handle_command(Command::Prompt { text: "hi".into() }) {
        Action::Prompt { sid, text, model, .. } => {
            assert_eq!(sid, "s1");
            assert_eq!(text, "hi");
            assert_eq!(model, None);
        }
        _ => panic!("there is a session to prompt"),
    }
    st.on_prompted("s1");
    assert!(st.store.is_busy());
    match st.handle_command(Command::Abort) {
        Action::Abort { sid, .. } => assert_eq!(sid, "s1"),
        _ => panic!("there is a session to abort"),
    }
}

#[test]
fn chosen_model_goes_with_the_prompt() {
    let mut st = LoopState::new("/repo");
    st.store.active_session = Some("s1".into());
    st.handle_command(Command::SetModel {
        provider_id: "anthropic".into(),
        model_id: "sonnet".into(),
    });
    match st.handle_command(Command::Prompt { text: "hi".into() }) {
        Action::Prompt { model, .. } => {
            assert_eq!(model, Some(("anthropic".into(), "sonnet".into())))
        }
        _ => panic!("there is a session to prompt"),
    }
}

#[test]
fn fan_out_skips_what_already_works() {
    let mut st = LoopState::new("/repo");
    st.store.session_scope.insert("s0".into(), "".into());
    st.store.session_scope.insert("s1".into(), "wt-a".into());
    st.store.session_scope.insert("s2".into(), "wt-b".into());
    st.on_prompted("s2");
    let steps = st.fan_out();
    assert_eq!(steps.len(), 2);
    assert!(matches!(&steps[0], FanStep::Send { sid, .. } if sid == "s1"));
    assert!(matches!(&steps[1], FanStep::Skip { scope } if scope == "wt-b"));
}

#[test]
fn permission_reply_is_known_or_an_error() {
    let mut st = LoopState::new("/repo");
    let reply = || Command::PermissionReply {
        permission_id: "p1".into(),
        response: PermissionResponse::Once,
    };
    assert!(matches!(st.handle_command(reply()), Action::Nothing));
    assert_eq!(
        st.store.errors.back().map(String::as_str),
        Some("reply for unknown permission")
    );
    st.store.apply_event(asked("p1", "s1"));
    match st.handle_command(reply()) {
        Action::Reply {
            sid, permission_id, ..
        } => {
            assert_eq!(sid, "s1");
            assert_eq!(permission_id, "p1");
        }
        _ => panic!("the permission is known"),
    }
    st.on_replied("p1");
    assert!(st.store.pending_permissions.is_empty());
    assert_eq!(PermissionResponse::Once.as_wire(), "once");
    assert_eq!(PermissionResponse::Always.as_wire(), "always");
    assert_eq!(PermissionResponse::Reject.as_wire(), "reject");
}

#[test]
fn new_session_becomes_that_of_its_worktree() {
    let mut st = LoopState::new("/repo");
    st.on_worktree_created(record("wt-a"));
    st.on_session_created("wt-a", "s1", session(1));
    assert_eq!(
        st.store.worktrees.get("wt-a").unwrap().session_id.as_deref(),
        Some("s1")
    );
    assert_eq!(st.store.active_session.as_deref(), Some("s1"));
    assert_eq!(st.store.scope_of("s1"), "wt-a");
    // A second one does not take its place.
    st.on_session_created("wt-a", "s2", session(2));
    assert_eq!(
        st.store.worktrees.get("wt-a").unwrap().session_id.as_deref(),
        Some("s1")
    );
}

#[test]
fn diffs_and_failures_are_recorded() {
    let mut st = LoopState::new("/repo");
    st.on_diff(
        "s1",
        Some(vec![FileDiff {
            file: Some("a.rs".into()),
            additions: 1,
            deletions: 0,
            patch: None,
        }]),
    );
    assert!(st.store.diffs.contains_key("s1"));
    st.on_failure(Trouble::Prompt, "refused");
    assert_eq!(
        st.store.errors.back().map(String::as_str),
        Some("prompt failed: refused")
    );
    st.on_failure(Trouble::Merge { slug: "wt-a".into() }, "conflict");
    assert_eq!(
        st.store.errors.back().map(String::as_str),
        Some("merge wt-a failed: conflict")
    );
    st.on_skipped("wt-b");
    assert_eq!(
        st.store.errors.back().map(String::as_str),
        Some("fan-out skipped wt-b: busy")
    );
}

#[test]
fn blank_titles_are_left_out() {
    assert_eq!(session_title("  ".into()), None);
    assert_eq!(session_title("fix it".into()).as_deref(), Some("fix it"));
}

#[test]
fn poll_refreshes_the_active_session() {
    let mut s = Store::default();
    assert_eq!(poll_plan(&s, 1).refresh, None);
    s.active_session = Some("s1".into());
    let p = poll_plan(&s, 30);
    assert_eq!(p.refresh.as_deref(), Some("s1"));
    assert!(p.sweep);
}

#[test]
fn found_worktrees_are_adopted_once() {
    let mut s = Store::default();
    let info = WorktreeInfo {
        path: "/repo/.ade-worktrees/wt-a".into(),
        branch: Some("ade/wt-a".into()),
    };
    assert!(adopt_worktree(&mut s, &info));
    assert!(s.worktrees.contains_key("wt-a"));
    assert!(!adopt_worktree(&mut s, &info));
    let root = WorktreeInfo {
        path: "/repo".into(),
        branch: Some("main".into()),
    };
    assert!(!adopt_worktree(&mut s, &root));
    assert_eq!(s.worktrees.len(), 1);
    let mut t = Store::default();
    let other = WorktreeInfo {
        path: "/repo/.ade-worktrees/wt-b".into(),
        branch: None,
    };
    discover_worktrees(&mut t, &vec![root, info, other]);
    assert_eq!(t.worktrees.len(), 2);
    assert_eq!(t.active_worktree.as_deref(), Some("wt-a"));
    assert_eq!(t.worktrees.get("wt-b").unwrap().branch, "ade/wt-b");
}

#[test]
fn context_lists_what_the_active_session_holds() {
    assert_eq!(est_tokens(""), 0);
    assert_eq!(est_tokens("abc"), 1);
    assert_eq!(est_tokens("abcd"), 2);
    let mut s = Store::default();
    s.active_session = Some("s1".into());
    s.set_messages(
        "s1",
        vec![
            entry("u1", Role::User, "please fix"),
            entry("a1", Role::Agent, "done"),
        ],
    );
    let v = compile(&s);
    let total: usize = v.sections.iter().map(|x| x.est_tokens).sum();
    assert_eq!(v.est_total_tokens, total);
    assert!(v
        .sections
        .iter()
        .any(|x| x.kind == SectionKind::User && x.detail == "please fix"));
    assert!(v
        .sections
        .iter()
        .any(|x| x.kind == SectionKind::Assistant && x.detail == "done"));
}

#[test]
fn section_heading_gives_no_line_numbers() {
    let numbers = |patch: &str| -> Vec<Option<u32>> {
        parse_patch_lines(patch).iter().map(|l| l.line).collect()
    };
    assert_eq!(
        numbers("@@ -3,1 +3,1 @@ - item\n-a\n+b\n"),
        vec![None, Some(3), Some(3)]
    );
    assert_eq!(
        numbers("@@ -3 +5 @@ fn f(a: i32) -> +7 @@ -9\n-a\n+b\n"),
        vec![None, Some(3), Some(5)]
    );
    assert_eq!(numbers("@@ -4 +6\n-a\n+b\n"), vec![None, Some(4), Some(6)]);
}

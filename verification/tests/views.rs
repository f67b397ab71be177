//! What the window shows, as plain rows, labels and colours.

use ade::agent::UsageSample;
use ade::bars::{
    connection, context_view, flat_models, pick_run_agent, render_agent_ticks, render_status_bar,
    term_label, Activity, ModelPicker, Views,
};
use ade::composer::{
    render_composer, send_fan_out, send_prompt, Buttons, Composer, EnterRoute,
};
use ade::container::{
    workspace_root, ContainerDesk, ContainerReport, ContainerState, EnsureBox,
};
use ade::context::{ContextSection, SectionKind};
use ade::costs::{money_cell, summarize, MoneyCell};
use ade::desk::{Desk, RunStep, Wake};
use ade::diff_view::{render_diff, DiffRow, MAX_PATCH_LINES};
use ade::driver::{open_host_task, Fleet};
use ade::file_view::{
    checkout_for, lang_of, load_file, open_request, opened, render_file, FilePane,
    MAX_FILE_BYTES,
};
use ade::fleet::FleetInbox;
use ade::outside::Failure;
use ade::palette::{
    label_matches, palette_items, palette_match, render_palette, PaletteAction, PaletteDesk,
    PaletteEffect, PaletteItem, RightTab,
};
use ade::provider::MockWorkspace;
use ade::permission::{answer, first_gate, render_permission_overlay};
use ade::review::DiffNote;
use ade::runtime::{Command, PermissionResponse};
use ade::scrollback::{
    active_checkout, filter_lines, guest_ready, Scrollback, TermDesk, ToggleStep,
    TERM_SCROLLBACK_CAP,
};
use ade::config::VmState;
use ade::secrets::{load_env_status, AgentEntry, MockSecrets};
use ade::session::{
    ConnState, FileDiff, PendingPermission, ProviderInfo, Session, SessionStatus, WorktreeRecord,
};
use ade::sidebar::{
    create_worktree_from_dialog, error_strip, remove_clicked, sidebar_rows, vm_badge, vm_banner,
    vm_dot, vm_label, worktree_to_create, Row,
};
use ade::sorted_map::StrMap;
use ade::store::Store;
use ade::theme::{
    active_bg, bubble_bg, card_bg, is_truncated, muted_for, soft_border_for, status_glyph,
    truncate, ACCENT_COLOR, BAD_COLOR, HEAD_COLOR, OK_COLOR, REVIEW_W, ROW_H, SIDEBAR_W,
    TEXT_BASE, WARN_COLOR,
};
use ade::transcript::TaskId;

fn dione(repo: &str, slug: &str) -> WorktreeRecord {
    WorktreeRecord::new_in(repo, ".dione-worktrees", slug).unwrap()
}

#[test]
fn dark_surfaces_keep_legacy_constants() {
    assert_eq!(muted_for(true), 0x8b8b93ff);
    assert_eq!(soft_border_for(true), 0x33363fff);
    assert_eq!(active_bg(true), 0x2a3044ff);
    assert_eq!(bubble_bg(true), 0x242838ff);
    assert_eq!(card_bg(true), 0x1d2029ff);
}

#[test]
fn light_surfaces_differ_for_contrast() {
    assert_ne!(muted_for(false), muted_for(true));
    assert_ne!(soft_border_for(false), soft_border_for(true));
    assert_ne!(active_bg(false), active_bg(true));
    assert_ne!(bubble_bg(false), bubble_bg(true));
    assert_ne!(card_bg(false), card_bg(true));
}

#[test]
fn glyph_priority_blocked_over_all() {
    assert_eq!(status_glyph(true, true, true, true), "■");
    assert_eq!(status_glyph(false, true, false, false), "?");
    assert_eq!(status_glyph(true, false, false, false), "●");
    assert_eq!(status_glyph(false, false, false, true), "✓");
    assert_eq!(status_glyph(false, false, false, false), "○");
}

#[test]
fn truncate_flags_long_text() {
    assert!(!is_truncated("abc", 20));
    assert!(is_truncated("abcdef", 5));
    assert_eq!(truncate("abcdef", 5), "abcde…");
}

#[test]
fn shell_metrics_documented() {
    assert!(ROW_H >= 28);
    assert!(TEXT_BASE >= 12);
    assert!(SIDEBAR_W > 220);
    assert!(REVIEW_W >= 360);
    assert!(is_truncated("abcdef", 5));
}

#[test]
fn labels_cover_all_states() {
    assert_eq!(vm_label(&ContainerState::Missing), "missing");
    assert_eq!(vm_label(&ContainerState::Pulling), "pulling…");
    assert_eq!(vm_label(&ContainerState::Running), "running");
    assert_eq!(vm_label(&ContainerState::Stopped), "stopped");
    assert_eq!(vm_label(&ContainerState::Error("x".into())), "error");
}

#[test]
fn steady_states_have_no_dot() {
    assert!(vm_dot(&ContainerState::Missing).is_none());
    assert!(vm_dot(&ContainerState::Stopped).is_none());
    assert!(vm_dot(&ContainerState::Running).is_some());
    assert!(vm_dot(&ContainerState::Pulling).is_some());
    assert!(vm_dot(&ContainerState::Error("x".into())).is_some());
}

#[test]
fn badge_shows_what_goes_on() {
    let mut states: StrMap<ContainerState> = StrMap::new();
    states.insert("wt-a".into(), ContainerState::Running);
    states.insert("wt-b".into(), ContainerState::Stopped);
    let b = vm_badge(&states, "wt-a").unwrap();
    assert_eq!(b.label, "ctr:running");
    assert_eq!(b.dot, OK_COLOR);
    assert!(vm_badge(&states, "wt-b").is_none());
    assert!(vm_badge(&states, "wt-c").is_none());
    assert!(vm_banner(true).is_none());
    assert!(vm_banner(false).is_some());
}

#[test]
fn container_thread_workspace_root_collapses_worktrees() {
    assert_eq!(workspace_root("/repo/.dione-worktrees/feat-a"), "/repo");
    assert_eq!(workspace_root("/repo/.dione-worktrees"), "/repo");
    assert_eq!(workspace_root("/repo"), "/repo");
}

#[test]
fn missing_podman_is_an_error_report() {
    let mut d = ContainerDesk::new();
    let path = "/tmp/ws-a/.dione-worktrees/a";
    match d.on_ensure("wt-a", path, path, "box-a", false) {
        EnsureBox::Refuse(r) => {
            assert_eq!(r.slug, "wt-a");
            assert_eq!(r.state, ContainerState::Error("podman not found".into()));
        }
        EnsureBox::Start { .. } => panic!("nothing can be started"),
    }
}

#[test]
fn shell_without_container_is_a_clean_error() {
    let d = ContainerDesk::new();
    let key = "/tmp/ws-x/.dione-worktrees/x";
    assert_eq!(
        d.shell_in("wt-x", key),
        Err(format!("no container for wt-x (worktree {key})"))
    );
}

fn start(d: &mut ContainerDesk, slug: &str, key: &str) -> Option<u16> {
    let port = match d.on_ensure(slug, key, key, slug, true) {
        EnsureBox::Start { report, preview, .. } => {
            assert_eq!(report.state, ContainerState::Pulling);
            preview
        }
        EnsureBox::Refuse(_) => panic!("podman is there"),
    };
    d.on_ensured(ContainerState::Running);
    port
}

#[test]
fn each_container_has_its_own_preview() {
    let mut d = ContainerDesk::new();
    let a = start(&mut d, "a", "/repo/.dione-worktrees/a");
    let b = start(&mut d, "b", "/repo/.dione-worktrees/b");
    assert_eq!(a, Some(4100));
    assert_eq!(b, Some(4101));
    // Bringing one up again keeps its port.
    assert_eq!(start(&mut d, "a", "/repo/.dione-worktrees/a"), a);
    assert_eq!(
        d.shell_in("a", "/repo/.dione-worktrees/a"),
        Ok("a".to_string())
    );
    d.on_stop("/repo/.dione-worktrees/a");
    assert!(d.shell_in("a", "/repo/.dione-worktrees/a").is_err());
    for i in 2..100 {
        let key = format!("/repo/.dione-worktrees/w{i}");
        assert!(start(&mut d, "w", &key).is_some());
    }
    assert_eq!(start(&mut d, "z", "/repo/.dione-worktrees/z"), None);
    assert_eq!(
        ContainerDesk::stop_report("a", Ok(true)).state,
        ContainerState::Stopped
    );
    assert_eq!(
        ContainerDesk::stop_report("a", Ok(false)).state,
        ContainerState::Missing
    );
    assert_eq!(
        ContainerDesk::stop_report("a", Err(Failure::because("no"))).state,
        ContainerState::Error("no".into())
    );
}

fn sample(agent: &str, model: &str, ts: u64, cost: Option<f64>) -> UsageSample {
    UsageSample {
        task: TaskId::new(),
        agent: agent.into(),
        model: model.into(),
        input: 10.0f64.to_bits(),
        output: 5.0f64.to_bits(),
        cache: 0.0f64.to_bits(),
        cost: cost.map(f64::to_bits),
        ts,
    }
}

fn tokens(samples: &[UsageSample], places: &[usize]) -> f64 {
    places
        .iter()
        .map(|i| {
            let s = &samples[*i];
            f64::from_bits(s.input) + f64::from_bits(s.output) + f64::from_bits(s.cache)
        })
        .sum()
}

#[test]
fn summary_groups_and_windows() {
    let now = 200_000;
    let samples = vec![
        sample("codex", "sonnet", now - 100, None),
        sample("opencode", "gpt", now - 100, Some(0.5)),
        sample("opencode", "gpt", now - 100_000, Some(1.0)),
    ];
    let sum = summarize(&samples, now);
    assert!(sum.cost_unknown);
    // Trailing 5h drops the old sample.
    let recent: Vec<usize> = (0..3).filter(|i| sum.recent[*i]).collect();
    assert_eq!(tokens(&samples, &recent), 30.0);
    let opencode = sum.by_agent.get("opencode").unwrap();
    assert_eq!(tokens(&samples, opencode), 30.0);
    assert_eq!(tokens(&samples, sum.by_agent.get("codex").unwrap()), 15.0);
    let window: Vec<usize> = opencode.iter().copied().filter(|i| sum.recent[*i]).collect();
    assert_eq!(tokens(&samples, &window), 15.0);
    assert_eq!(sum.by_model.len(), 2);
}

#[test]
fn money_cells_tell_what_is_known() {
    assert_eq!(money_cell(1, false, true), MoneyCell::Exact);
    assert_eq!(money_cell(2, true, true), MoneyCell::AtLeast);
    assert_eq!(money_cell(1, true, false), MoneyCell::Unknown);
    assert_eq!(money_cell(0, false, false), MoneyCell::Dash);
}

#[test]
fn lang_tags_cover_common_extensions() {
    assert_eq!(lang_of("src/main.rs"), "rust");
    assert_eq!(lang_of("Cargo.toml"), "toml");
    assert_eq!(lang_of("x.py"), "python");
    assert_eq!(lang_of("notes.md"), "markdown");
    assert_eq!(lang_of("Makefile"), "text");
    assert_eq!(lang_of("noext"), "text");
}

#[test]
fn checkout_resolves_worktree_and_derived_root() {
    let mut store = Store::default();
    assert!(checkout_for(&store, "").is_none());
    assert!(checkout_for(&store, "wt-a").is_none());
    let record = dione("/repo", "wt-a");
    let wt_path = record.path.clone();
    store.upsert_worktree(record);
    assert_eq!(checkout_for(&store, "wt-a"), Some(wt_path));
    // Main scope derives the repo root from any known worktree.
    assert_eq!(checkout_for(&store, ""), Some("/repo".to_string()));
}

#[test]
fn checkout_prefers_active_worktree_repo() {
    let mut store = Store::default();
    store.upsert_worktree(dione("/repo-a", "wt-a"));
    store.upsert_worktree(dione("/repo-b", "wt-b"));
    // First inserted is active → repo-a…
    assert_eq!(checkout_for(&store, ""), Some("/repo-a".to_string()));
    // …until the user selects the other worktree.
    assert!(store.set_active("wt-b"));
    assert_eq!(checkout_for(&store, ""), Some("/repo-b".to_string()));
}

#[test]
fn open_errors_flag_for_warn_render() {
    let store = Store::default();
    let f = open_request(&store, "", "../evil.txt").unwrap_err();
    assert!(f.error);
    let mut store2 = Store::default();
    store2.upsert_worktree(dione("/tmp/dione-file-err", "wt-a"));
    // Worktree checkout = dir/.dione-worktrees/wt-a (missing on disk
    // in this test) → missing-file message still flagged as error.
    let path = open_request(&store2, "wt-a", "nope.txt").unwrap();
    assert_eq!(path, "/tmp/dione-file-err/.dione-worktrees/wt-a/nope.txt");
    let g = opened("wt-a", "nope.txt", load_file(&path, Err("not found".into())));
    assert!(g.error);
    assert!(matches!(render_file(&Some(g)), FilePane::Warning(_)));
}

#[test]
fn load_file_rejects_binary_and_caps() {
    assert!(load_file("/d/bin.dat", Ok(vec![0u8, 1, 2])).is_err());
    let big = "x".repeat(MAX_FILE_BYTES + 10);
    let (text, truncated) = load_file("/d/big.txt", Ok(big.into_bytes())).unwrap();
    assert!(truncated);
    assert_eq!(text.len(), MAX_FILE_BYTES);
    assert!(load_file("/d/missing.txt", Err("not found".into())).is_err());
}

#[test]
fn open_path_stays_inside_checkout() {
    let store = Store::default();
    let f = open_request(&store, "", "../evil.txt").unwrap_err();
    assert!(f.content.contains("outside the checkout"));
    let g = open_request(&store, "", "/abs.txt").unwrap_err();
    assert!(g.content.contains("outside the checkout"));
    let h = open_request(&store, "wt-unknown", "a.rs").unwrap_err();
    assert!(h.content.contains("no checkout known"));
}

#[test]
fn opened_file_is_shown_line_by_line() {
    let loaded = load_file("/d/a.rs", Ok(b"fn main() {\n}\n".to_vec()));
    let f = opened("", "a.rs", loaded);
    assert!(!f.error);
    assert_eq!(f.lang, "rust");
    match render_file(&Some(f)) {
        FilePane::Lines { rows, .. } => {
            assert_eq!(rows.len(), 2);
            assert_eq!(rows[0].1, "fn main() {");
        }
        _ => panic!("a file is open"),
    }
    assert!(matches!(render_file(&None), FilePane::Empty));
}

fn item(id: &str, label: &str) -> PaletteItem {
    PaletteItem {
        id: id.to_string(),
        label: label.to_string(),
        hint: "go".to_string(),
        action: PaletteAction::FetchAllDiffs,
    }
}

#[test]
fn filter_is_case_insensitive_and_capped() {
    let items = vec![
        item("a", "Go to ⑂ auth-fix"),
        item("b", "Go to ⑂ AUTH-RETRY"),
        item("c", "Fetch all diffs"),
    ];
    assert_eq!(palette_match("", &items, 10).len(), 3);
    assert_eq!(palette_match("auth", &items, 10).len(), 2);
    assert_eq!(palette_match("zzz", &items, 10).len(), 0);
    assert_eq!(palette_match("", &items, 2).len(), 2);
}

#[test]
fn empty_query_lists_everything() {
    let items = vec![item("a", "Go to ⑂ x"), item("b", "Fetch all diffs")];
    assert_eq!(palette_match("", &items, 10).len(), 2);
    assert_eq!(palette_match("  ", &items, 10).len(), 2);
}

#[test]
fn palette_lists_the_fleet_and_runs_the_first() {
    let mut store = Store::default();
    store.upsert_worktree(dione("/repo", "auth-fix"));
    store.upsert_worktree(dione("/repo", "billing"));
    let items = palette_items(&store);
    assert!(items
        .iter()
        .any(|i| i.label.contains("billing")
            && matches!(&i.action, PaletteAction::SelectWorktree(s) if s == "billing")));
    let rows = render_palette(&store, "BILLING");
    assert!(!rows.is_empty());
    assert!(rows.iter().all(|r| label_matches(&r.label, "billing")));
    let mut desk = PaletteDesk {
        show_palette: true,
        show_wt_dialog: false,
        right_tab: RightTab::Diff,
    };
    assert!(desk.run_palette_first(&store, "zzzz").is_none());
    assert!(desk.run_palette_first(&store, "billing").is_some());
    assert!(!desk.show_palette);
    assert!(matches!(
        desk.run_palette(PaletteAction::FetchAllDiffs),
        PaletteEffect::Send(Command::FetchAllDiffs)
    ));
    desk.run_palette(PaletteAction::SetRightTab(RightTab::Costs));
    assert!(matches!(desk.right_tab, RightTab::Costs));
    desk.run_palette(PaletteAction::OpenWtDialog);
    assert!(desk.show_wt_dialog);
}

#[test]
fn push_bytes_splits_partials_and_caps() {
    let mut t = Scrollback::new();
    assert!(!t.push_bytes(b"part"));
    assert!(t.lines.is_empty());
    assert!(t.push_bytes(b"ial\nsecond\n"));
    let got: Vec<&str> = t.lines.iter().map(String::as_str).collect();
    assert_eq!(got, vec!["partial", "second"]);
    for i in 0..TERM_SCROLLBACK_CAP + 10 {
        t.push_bytes(format!("l{i}\n").as_bytes());
    }
    assert_eq!(t.lines.len(), TERM_SCROLLBACK_CAP);
    assert_eq!(t.lines[0], "l10");
}

#[test]
fn pieces_of_output_make_no_difference() {
    let mut whole = Scrollback::new();
    whole.push_text("one\ntwo\nthr");
    let mut pieces = Scrollback::new();
    for p in ["on", "e\nt", "wo", "\nth", "r"] {
        pieces.push_text(p);
    }
    assert_eq!(whole.lines, pieces.lines);
    assert_eq!(whole.tail, pieces.tail);
    assert_eq!(whole.shown("TW").0, vec!["two".to_string()]);
}

#[test]
fn filter_matches_substring_or_all() {
    let lines = vec!["foo".to_string(), "bar".to_string(), "foobar".to_string()];
    assert_eq!(filter_lines(lines.clone(), "").len(), 3);
    assert_eq!(
        filter_lines(lines.clone(), "foo"),
        vec!["foo".to_string(), "foobar".to_string()]
    );
    assert!(filter_lines(lines, "zzz").is_empty());
}

#[test]
fn filter_ignores_case() {
    let lines = vec!["Error: boom".to_string(), "ok".to_string()];
    assert_eq!(
        filter_lines(lines, "error"),
        vec!["Error: boom".to_string()]
    );
}

#[test]
fn terminal_opens_in_the_guest_when_it_is_up() {
    let mut store = Store::default();
    let mut states: StrMap<VmState> = StrMap::new();
    let mut desk = TermDesk {
        show_terminal: false,
        has_shell: false,
        term_pending: false,
    };
    assert_eq!(desk.toggle_terminal(&store, &states), ToggleStep::Nothing);
    desk.show_terminal = false;
    let record = dione("/repo", "wt-a");
    let path = record.path.clone();
    store.upsert_worktree(record);
    assert_eq!(
        active_checkout(&store),
        Some(("wt-a".to_string(), path.clone()))
    );
    assert_eq!(
        desk.toggle_terminal(&store, &states),
        ToggleStep::Host { cwd: path.clone() }
    );
    desk.on_host_shell(true);
    assert!(desk.has_shell);
    let mut other = TermDesk {
        show_terminal: false,
        has_shell: false,
        term_pending: false,
    };
    states.insert("wt-a".into(), VmState::Running);
    assert!(guest_ready(&states, "wt-a"));
    assert_eq!(
        other.toggle_terminal(&store, &states),
        ToggleStep::Guest {
            slug: "wt-a".into(),
            cwd: path
        }
    );
    assert!(other.term_pending);
    assert_eq!(other.send_terminal_input("ls"), None);
    assert_eq!(desk.send_terminal_input("ls"), Some(b"ls\n".to_vec()));
    assert_eq!(desk.send_terminal_input(""), None);
    assert!(other.placeholder().is_some());
}

#[test]
fn sidebar_lists_worktrees_with_their_sessions() {
    let mut store = Store::default();
    store.upsert_worktree(dione("/repo", "wt-a"));
    store.sessions.insert(
        "s1".into(),
        Session {
            title: "fix login".into(),
            updated: 1,
        },
    );
    store.session_scope.insert("s1".into(), "wt-a".into());
    store.sessions.insert(
        "s0".into(),
        Session {
            title: "main work".into(),
            updated: 2,
        },
    );
    store.statuses.insert("s1".into(), SessionStatus::Busy);
    let states: StrMap<ContainerState> = StrMap::new();
    let rows = sidebar_rows(&store, &states);
    assert_eq!(rows.len(), 3);
    assert!(matches!(&rows[0], Row::Worktree { slug, active: true, .. } if slug == "wt-a"));
    assert!(
        matches!(&rows[1], Row::Session { sid, indent: true, dot: Some(c), .. } if sid == "s1" && *c == OK_COLOR)
    );
    assert!(matches!(&rows[2], Row::Session { sid, indent: false, dot: None, .. } if sid == "s0"));
    assert!(error_strip(&store).is_none());
    store.push_error("boom".into());
    assert_eq!(error_strip(&store).as_deref(), Some("boom"));
}

#[test]
fn unnamed_worktrees_are_numbered() {
    let mut store = Store::default();
    store.upsert_worktree(dione("/repo", "wt-a"));
    assert!(
        matches!(worktree_to_create(&store, "  "), Command::CreateWorktree { slug } if slug == "task-2")
    );
    assert!(
        matches!(worktree_to_create(&store, "feat"), Command::CreateWorktree { slug } if slug == "feat")
    );
    assert!(create_worktree_from_dialog(&store, false, "feat").is_none());
    let (stop, cmd) = remove_clicked(&store, "wt-a");
    assert!(stop.is_some());
    assert!(matches!(cmd, Command::RemoveWorktree { slug } if slug == "wt-a"));
}

fn note(sid: &str, line: u32) -> DiffNote {
    DiffNote {
        session_id: sid.into(),
        file: "a.rs".into(),
        line,
        end_line: None,
        text: "fix".into(),
        replies: Vec::new(),
    }
}

#[test]
fn diff_rows_show_every_line_with_its_notes() {
    let mut store = Store::default();
    store.diffs.insert(
        "s1".into(),
        Some(vec![FileDiff {
            file: Some("a.rs".into()),
            additions: 1,
            deletions: 1,
            patch: Some("@@ -1,1 +1,1 @@\n-a\n+b\n".into()),
        }]),
    );
    let rows = render_diff(&store, &vec![note("s1", 1)], true);
    let lines: Vec<(&str, u32)> = rows
        .iter()
        .filter_map(|r| match r {
            DiffRow::Line { text, color, .. } => Some((text.as_str(), *color)),
            _ => None,
        })
        .collect();
    assert_eq!(lines.len(), 3);
    assert_eq!(lines[1], ("-a", BAD_COLOR));
    assert_eq!(lines[2], ("+b", OK_COLOR));
    assert!(rows.iter().any(|r| matches!(r, DiffRow::Note { .. })));
    assert!(rows
        .iter()
        .any(|r| matches!(r, DiffRow::Session { sid, send: Some(_), .. } if sid == "s1")));
    assert!(render_diff(&Store::default(), &vec![], true).is_empty());
}

#[test]
fn long_patches_are_cut() {
    let mut store = Store::default();
    let mut patch = String::from("@@ -1,1 +1,900 @@\n");
    for i in 0..900 {
        patch.push_str(&format!("+l{i}\n"));
    }
    store.diffs.insert(
        "s1".into(),
        Some(vec![FileDiff {
            file: Some("a.rs".into()),
            additions: 900,
            deletions: 0,
            patch: Some(patch),
        }]),
    );
    let n = render_diff(&store, &vec![], true)
        .iter()
        .filter(|r| matches!(r, DiffRow::Line { .. }))
        .count();
    assert_eq!(n, MAX_PATCH_LINES);
}

fn pending(pid: &str) -> PendingPermission {
    PendingPermission {
        permission_id: pid.into(),
        session_id: "s1".into(),
        kind: "bash".into(),
        patterns: vec!["cargo *".into()],
        command: Some("cargo test".into()),
    }
}

#[test]
fn permission_card_asks_for_the_first_permission() {
    let mut store = Store::default();
    assert!(first_gate(&store).is_none());
    store.pending_permissions.insert("p2".into(), pending("p2"));
    store.pending_permissions.insert("p1".into(), pending("p1"));
    let card = first_gate(&store).unwrap();
    assert_eq!(card.permission_id, "p1");
    assert_eq!(card.command.as_deref(), Some("cargo test"));
    assert!(matches!(
        answer(&card, PermissionResponse::Reject),
        Command::PermissionReply { permission_id, response: PermissionResponse::Reject }
            if permission_id == "p1"
    ));
    let alone = render_permission_overlay(&pending("p1"), 1);
    assert_ne!(alone.title, render_permission_overlay(&pending("p1"), 2).title);
}

#[test]
fn note_is_written_replied_to_and_sent() {
    let mut c = Composer::new();
    assert!(matches!(c.enter(false), EnterRoute::Send));
    assert!(matches!(c.enter(true), EnterRoute::Nothing));
    assert!(c.render_note_bar().is_none());
    assert!(!c.submit_annotate("lost"));
    c.reply_target = None;
    c.diff_notes.push(note("s1", 1));
    c.reply_target = Some(note("s1", 1));
    assert!(matches!(c.enter(true), EnterRoute::Annotate));
    assert!(c.render_note_bar().is_some());
    assert!(c.submit_annotate("agreed"));
    assert_eq!(c.diff_notes[0].replies, vec!["agreed".to_string()]);
    assert!(c.reply_target.is_none());
    c.diff_notes.push(note("s2", 4));
    match c.send_notes("s1") {
        Command::SendNotes { session_id, notes } => {
            assert_eq!(session_id, "s1");
            assert_eq!(notes.len(), 1);
        }
        _ => panic!("notes are sent"),
    }
    assert_eq!(c.diff_notes, vec![note("s2", 4)]);
    c.cancel();
    assert!(c.annotate_target.is_none());
}

#[test]
fn prompts_need_text_and_a_session() {
    let mut store = Store::default();
    assert!(send_prompt(&store, "hi").is_none());
    store.active_session = Some("s1".into());
    assert!(send_prompt(&store, "   ").is_none());
    assert!(
        matches!(send_prompt(&store, "hi"), Some(Command::Prompt { text }) if text == "hi")
    );
    assert!(send_fan_out(&store, " ").is_none());
    assert!(matches!(render_composer(&store), Buttons::Send { .. }));
    store.statuses.insert("s1".into(), SessionStatus::Busy);
    assert!(matches!(render_composer(&store), Buttons::Abort));
}

#[test]
fn top_bar_names_connection_and_models() {
    assert_eq!(connection(ConnState::Connected).0, OK_COLOR);
    assert_eq!(connection(ConnState::Disconnected).0, BAD_COLOR);
    assert_eq!(connection(ConnState::Connecting).0, WARN_COLOR);
    let mut store = Store::default();
    store.providers.push(ProviderInfo {
        provider_id: "anthropic".into(),
        provider_name: "Anthropic".into(),
        models: vec![
            ("sonnet".into(), "Sonnet".into()),
            ("opus".into(), "Opus".into()),
        ],
    });
    let models = flat_models(&store);
    assert_eq!(models.len(), 2);
    let mut p = ModelPicker { model_ix: Some(0) };
    assert_eq!(p.next(2), Some(1));
    assert_eq!(p.prev(2), Some(1));
    assert_eq!(p.next(0), None);
    match p.pick_model(1, &models) {
        Some(Command::SetModel { provider_id, model_id }) => {
            assert_eq!(provider_id, "anthropic");
            assert_eq!(model_id, "opus");
        }
        _ => panic!("there is such a model"),
    }
    assert_eq!(p.model_ix, Some(1));
    assert!(p.pick_model(9, &models).is_none());
    assert_ne!(term_label(true), term_label(false));
}

#[test]
fn ticks_follow_the_registry() {
    let names = vec!["bad".to_string(), "good".to_string()];
    let mut ok: StrMap<bool> = StrMap::new();
    ok.insert("good".into(), true);
    ok.insert("bad".into(), false);
    let ticks = render_agent_ticks(&names, &ok, true);
    assert_eq!(ticks.len(), 2);
    assert_eq!(ticks[1].1, OK_COLOR);
    assert_ne!(ticks[0].1, OK_COLOR);
    assert_eq!(pick_run_agent(&names, &ok).as_deref(), Some("good"));
    assert_eq!(pick_run_agent(&[].to_vec(), &ok), None);
}

#[test]
fn views_switch_between_fleet_and_review() {
    let mut v = Views {
        show_terminal: false,
        right_tab: RightTab::Context,
    };
    assert!(matches!(v.activity(), Activity::Fleet));
    v.to_review();
    assert!(matches!(v.activity(), Activity::Review));
    assert!(v.can_fetch());
    v.show_terminal = true;
    assert!(matches!(v.activity(), Activity::Terminal));
    // Leaving the terminal keeps the tab that was open beside it.
    v.to_fleet();
    assert!(!v.show_terminal);
    assert!(matches!(v.activity(), Activity::Review));
    assert_ne!(
        v.tab_label(RightTab::Context),
        v.tab_label(RightTab::Costs)
    );
    let (left, right) = render_status_bar(&Store::default(), false);
    assert!(!left.is_empty());
    assert!(!right.is_empty());
}

#[test]
fn context_rows_are_coloured_by_kind() {
    let section = |kind: SectionKind, detail: &str| ContextSection {
        label: "x".into(),
        kind,
        detail: detail.into(),
        est_tokens: 3,
    };
    let rows = context_view(
        &vec![
            section(SectionKind::System, "s"),
            section(SectionKind::User, ""),
            section(SectionKind::Other, &"y".repeat(300)),
        ],
        true,
    );
    assert_eq!(rows[0].color, HEAD_COLOR);
    assert_eq!(rows[0].detail.as_deref(), Some("s"));
    assert_eq!(rows[1].color, ACCENT_COLOR);
    assert_eq!(rows[1].detail, None);
    assert_eq!(rows[2].color, muted_for(true));
    assert_eq!(rows[2].detail.as_ref().unwrap().chars().count(), 261);
}

#[test]
fn agent_runs_once_its_container_is_up() {
    let mut d = Desk::new();
    d.vm_available = true;
    d.refresh_agents(vec!["codex".into()], {
        let mut ok: StrMap<bool> = StrMap::new();
        ok.insert("codex".into(), true);
        ok
    }, StrMap::new());
    let mut c = Composer::new();
    let path = "/repo/.dione-worktrees/wt-a";
    assert_eq!(
        d.run_worktree_agent(&mut c, "wt-a", path, "do it", false),
        RunStep::Ensure
    );
    assert!(d.pending_runs.contains_key("wt-a"));
    let begun = d.on_reports(vec![ContainerReport {
        slug: "wt-a".into(),
        state: ContainerState::Running,
    }]);
    assert_eq!(begun.len(), 1);
    assert_eq!(begun[0].0, "wt-a");
    assert_eq!(begun[0].1.agent, "codex");
    // A run that has begun does not begin again.
    let again = d.on_reports(vec![ContainerReport {
        slug: "wt-a".into(),
        state: ContainerState::Running,
    }]);
    assert!(again.is_empty());
    assert!(matches!(
        d.run_worktree_agent(&mut c, "wt-a", path, "more", false),
        RunStep::Spawn { .. }
    ));
    assert!(matches!(
        d.run_worktree_agent(&mut c, "wt-a", path, "more", true),
        RunStep::Refused(_)
    ));
}

#[test]
fn keys_are_all_there_or_not() {
    let mut registry: StrMap<AgentEntry> = StrMap::new();
    for (name, keys) in [("aider", vec!["A", "B"]), ("codex", vec!["A"]), ("plain", vec![])] {
        let mut e = AgentEntry::new(name, "-p");
        e.env_keys = keys.iter().map(|k| k.to_string()).collect();
        registry.insert(name.into(), e);
    }
    let secrets = MockSecrets::new()
        .with("aider/A", "1")
        .with("codex/A", "2");
    let env = load_env_status(&registry, &secrets);
    assert_eq!(env.get("aider"), Some(&false));
    assert_eq!(env.get("codex"), Some(&true));
    assert_eq!(env.get("plain"), None);
}

#[test]
fn failed_container_drops_its_run() {
    let mut d = Desk::new();
    d.vm_available = true;
    d.refresh_agents(vec!["codex".into()], {
        let mut ok: StrMap<bool> = StrMap::new();
        ok.insert("codex".into(), true);
        ok
    }, StrMap::new());
    let mut c = Composer::new();
    d.run_worktree_agent(&mut c, "wt-a", "/p", "do it", false);
    let begun = d.on_reports(vec![ContainerReport {
        slug: "wt-a".into(),
        state: ContainerState::Error("pull failed".into()),
    }]);
    assert!(begun.is_empty());
    assert!(!d.pending_runs.contains_key("wt-a"));
}

#[test]
fn selecting_a_worktree_wakes_it_and_lets_others_sleep() {
    let mut store = Store::default();
    store.upsert_worktree(dione("/repo", "wt-a"));
    store.upsert_worktree(dione("/repo", "wt-b"));
    let mut d = Desk::new();
    d.vm_available = true;
    d.vm_states.insert("wt-a".into(), ContainerState::Paused);
    d.vm_states.insert("wt-b".into(), ContainerState::Running);
    let mut fleet: Fleet = FleetInbox::new();
    let p = d.select_worktree(&store, &fleet, "wt-a");
    assert!(matches!(p.command, Command::SelectWorktree { slug } if slug == "wt-a"));
    assert!(matches!(p.wake, Wake::Unpause(_)));
    assert_eq!(p.pause.len(), 1);
    assert_eq!(p.pause[0].0, "wt-b");
    // A worktree with an open task stays awake.
    open_host_task(&mut fleet, "wt-b", "mock", "go", Box::new(MockWorkspace::new())).unwrap();
    assert!(d.select_worktree(&store, &fleet, "wt-a").pause.is_empty());
}

#[test]
fn registry_is_reread_now_and_again() {
    let mut d = Desk::new();
    let slow = (0..750).filter(|_| d.on_poll()).count();
    assert_eq!(slow, 2);
}

#[test]
fn clicks_choose_a_line_or_a_range() {
    let at = |line: u32| ("s1".to_string(), "f.rs".to_string(), line);
    let mut c = Composer::new();
    c.click_line(at(9));
    assert_eq!(c.annotate_anchor, Some(at(9)));
    assert_eq!(c.annotate_target, None);
    assert_eq!(
        c.render_note_bar().unwrap(),
        "✎ anchor f.rs:9 — click another line for a range"
    );
    c.click_line(at(4));
    assert_eq!(c.annotate_anchor, None);
    assert_eq!(
        c.annotate_target,
        Some(("s1".into(), "f.rs".into(), 4, Some(9)))
    );
    c.click_line(at(4));
    c.click_line(at(4));
    assert_eq!(c.annotate_target, Some(("s1".into(), "f.rs".into(), 4, None)));
    c.click_line(at(1));
    c.click_line(("s2".into(), "f.rs".into(), 2));
    assert_eq!(c.annotate_anchor, Some(("s2".into(), "f.rs".into(), 2)));
    assert_eq!(c.annotate_target, None);
}

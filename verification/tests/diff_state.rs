use herdr::ansi::{AnsiLine, AnsiSpan, AnsiStyle};
use herdr::diff::{FileChange, Mode, RepoDiff};
use herdr::diff_state::{DiffState, Hit, Outcome, Row, Selection, ViewState};
use herdr::diff_ui::{Action, Effects, External, Job, Source};
use herdr::jira_state::{KeyCode, KeyPress, MouseInput, MouseKind};
use herdr::right_panel::Rect;

const T0: u64 = 5_000_000;

fn change(path: &str, status: char, adds: u64, dels: u64) -> FileChange {
    FileChange {
        path: path.into(),
        old_path: None,
        status,
        adds,
        dels,
        binary: false,
    }
}

fn repo(root: &str, files: Vec<FileChange>) -> RepoDiff {
    RepoDiff {
        root: root.into(),
        branch: Some("task/x".into()),
        base_label: "origin/develop".into(),
        base_rev: "abc".into(),
        files,
        error: None,
    }
}

fn press(code: KeyCode) -> KeyPress {
    KeyPress {
        code,
        ctrl: false,
        alt: false,
    }
}

fn loaded(state: &mut DiffState, repos: Vec<RepoDiff>) -> Effects {
    let job = state.start_refresh();
    assert_eq!(job, Some(Job::Refresh { mode: state.mode }));
    state.apply(
        Outcome::Loaded {
            mode: state.mode,
            repos,
            source: Source::Session,
        },
        T0,
    )
}

fn loaded_state() -> DiffState {
    let mut state = DiffState::new("/w".into(), Some("/home/me".into()));
    loaded(
        &mut state,
        vec![
            repo("/w/clean", vec![]),
            repo(
                "/w/api",
                vec![change("app/a.rb", 'M', 3, 1), change("spec/a_spec.rb", 'A', 9, 0)],
            ),
            repo("/w/web", vec![change("src/b.ts", 'D', 0, 4)]),
        ],
    );
    state
}

fn line(text: &str) -> AnsiLine {
    AnsiLine {
        spans: vec![AnsiSpan {
            text: text.into(),
            style: AnsiStyle::plain(),
        }],
    }
}

#[test]
fn first_changed_repo_opens_and_others_collapse_with_clean_repos_last() {
    let state = loaded_state();

    let roots: Vec<&str> = state.repos.iter().map(|repo| repo.root.as_str()).collect();
    assert_eq!(roots, ["/w/api", "/w/web", "/w/clean"]);
    assert_eq!(
        state.rows,
        [Row::Repo(0), Row::File(0, 0), Row::File(0, 1), Row::Repo(1), Row::Repo(2)]
    );
    assert_eq!(
        state.selection,
        Some(Selection::File("/w/api".into(), "app/a.rb".into()))
    );
}

#[test]
fn refresh_keeps_manual_expansion_and_new_repos_arrive_collapsed() {
    let mut state = loaded_state();
    state.selection = Some(Selection::Repo("/w/web".into()));
    state.key(press(KeyCode::Enter), T0);
    assert!(!state.is_collapsed("/w/web"));

    loaded(
        &mut state,
        vec![
            repo("/w/new", vec![change("x", '?', 1, 0)]),
            repo("/w/api", vec![change("app/a.rb", 'M', 3, 1)]),
            repo("/w/web", vec![change("src/b.ts", 'D', 0, 4)]),
        ],
    );

    assert!(state.is_collapsed("/w/new"));
    assert!(!state.is_collapsed("/w/api"));
    assert!(!state.is_collapsed("/w/web"));
}

#[test]
fn mode_toggle_refreshes_and_discards_results_of_the_old_mode() {
    let mut state = loaded_state();
    assert_eq!(state.mode, Mode::Pr);

    let effects = state.key(press(KeyCode::Char('b')), T0);
    assert_eq!(effects.jobs, [Job::Refresh { mode: Mode::Uncommitted }]);
    assert!(state.key(press(KeyCode::Char('b')), T0).jobs.is_empty());
    assert_eq!(state.mode, Mode::Pr);

    let effects = state.apply(
        Outcome::Loaded {
            mode: Mode::Uncommitted,
            repos: vec![],
            source: Source::Cwd,
        },
        T0,
    );
    assert_eq!(effects.jobs, [Job::Refresh { mode: Mode::Pr }]);
    assert_eq!(state.repos.len(), 3);
}

#[test]
fn enter_opens_file_diff_and_escape_returns_to_the_tree() {
    let mut state = loaded_state();
    state.body_width = 70;

    let effects = state.key(press(KeyCode::Enter), T0);

    let [Job::FileDiff { root, file, width, .. }] = effects.jobs.as_slice() else {
        panic!("{:?}", effects.jobs);
    };
    assert_eq!(root, "/w/api");
    assert_eq!(file.path, "app/a.rb");
    assert_eq!(*width, 70);
    state.apply(
        Outcome::FileDiff {
            root: "/w/api".into(),
            path: "app/a.rb".into(),
            width: 70,
            result: Ok(vec![line("diff")]),
        },
        T0,
    );
    let ViewState::File(view) = &state.view else {
        panic!("expected file view");
    };
    assert_eq!(view.lines.as_ref().map(Vec::len), Some(1));
    state.key(press(KeyCode::Char('j')), T0);
    state.key(press(KeyCode::Esc), T0);
    assert!(matches!(state.view, ViewState::Tree));
}

#[test]
fn next_file_crosses_repos_and_expands_the_target() {
    let mut state = loaded_state();
    state.key(press(KeyCode::Down), T0);
    let effects = state.key(press(KeyCode::Char('n')), T0);

    let [Job::FileDiff { root, file, .. }] = effects.jobs.as_slice() else {
        panic!("{:?}", effects.jobs);
    };
    assert_eq!((root.as_str(), file.path.as_str()), ("/w/web", "src/b.ts"));
    assert!(!state.is_collapsed("/w/web"));
    assert!(state.key(press(KeyCode::Char('n')), T0).jobs.is_empty());
}

#[test]
fn edit_needs_an_existing_file_and_lazygit_runs_in_the_selected_repo() {
    let mut state = loaded_state();
    let effects = state.key(press(KeyCode::Char('e')), T0);
    assert!(
        matches!(effects.jobs.as_slice(), [Job::Edit { file, .. }] if file.path == "app/a.rb")
    );

    state.selection = Some(Selection::File("/w/web".into(), "src/b.ts".into()));
    assert!(state.key(press(KeyCode::Char('e')), T0).jobs.is_empty());
    assert!(state.notice.as_ref().is_some_and(|notice| notice.error));

    let effects = state.key(press(KeyCode::Char('g')), T0);
    assert_eq!(
        effects.external,
        Some(External {
            program: "lazygit".into(),
            args: vec![],
            dir: "/w/web".into(),
        })
    );
    let effects = state.after_external(Ok(()), T0);
    assert_eq!(effects.jobs, [Job::Refresh { mode: Mode::Pr }]);
}

#[test]
fn edit_fallback_runs_micro_at_the_line() {
    let mut state = loaded_state();
    let effects = state.apply(
        Outcome::EditHere {
            path: "/w/api/app/a.rb".into(),
            line: 12,
        },
        T0,
    );
    assert_eq!(
        effects.external,
        Some(External {
            program: "micro".into(),
            args: vec!["+12".into(), "/w/api/app/a.rb".into()],
            dir: "/w/api/app".into(),
        })
    );
}

#[test]
fn refresh_in_file_view_reloads_the_file_or_falls_back_to_the_tree() {
    let mut state = loaded_state();
    state.key(press(KeyCode::Enter), T0);

    let effects = loaded(&mut state, vec![repo("/w/api", vec![change("app/a.rb", 'M', 5, 1)])]);
    assert!(matches!(effects.jobs.as_slice(), [Job::FileDiff { file, .. }] if file.adds == 5));

    loaded(&mut state, vec![repo("/w/api", vec![])]);
    assert!(matches!(state.view, ViewState::Tree));
    assert_eq!(state.selection, Some(Selection::Repo("/w/api".into())));
}

#[test]
fn width_change_reloads_an_open_diff_once() {
    let mut state = loaded_state();
    state.body_width = 60;
    state.key(press(KeyCode::Enter), T0);
    assert_eq!(state.tick(T0), None);
    state.apply(
        Outcome::FileDiff {
            root: "/w/api".into(),
            path: "app/a.rb".into(),
            width: 60,
            result: Ok(vec![]),
        },
        T0,
    );
    state.body_width = 90;
    assert!(matches!(state.tick(T0), Some(Job::FileDiff { width: 90, .. })));
    assert_eq!(state.tick(T0), None);
}

#[test]
fn clicks_fold_repos_select_files_and_open_them_on_a_double_click() {
    let mut state = loaded_state();
    state.hits = vec![
        (Rect { x: 0, y: 0, width: 40, height: 1 }, Hit::Row(3)),
        (Rect { x: 0, y: 1, width: 40, height: 1 }, Hit::Row(2)),
        (Rect { x: 0, y: 2, width: 10, height: 1 }, Hit::Button(Action::Quit)),
    ];
    let at = |column: u16, row: u16| MouseInput {
        kind: MouseKind::LeftDown,
        column,
        row,
    };
    state.mouse(at(3, 0), T0);
    assert!(!state.is_collapsed("/w/web"));
    assert_eq!(state.selection, Some(Selection::Repo("/w/web".into())));

    state.hits[1].1 = Hit::Row(2);
    let first = state.mouse(at(3, 1), T0 + 1000);
    assert!(first.jobs.is_empty());
    assert_eq!(
        state.selection,
        Some(Selection::File("/w/api".into(), "spec/a_spec.rb".into()))
    );
    let second = state.mouse(at(3, 1), T0 + 1200);
    assert!(matches!(second.jobs.as_slice(), [Job::FileDiff { file, .. }] if file.path == "spec/a_spec.rb"));
    assert!(state.last_click.is_none());

    assert!(state.mouse(at(3, 2), T0 + 5000).quit);
    state.mouse(at(30, 30), T0 + 6000);
    assert!(state.last_click.is_none());
}

#[test]
fn wheel_scrolls_the_tree_within_its_rows_and_the_diff_freely() {
    let mut state = loaded_state();
    state.list_height = 2;
    let wheel = |down: bool| MouseInput {
        kind: if down { MouseKind::ScrollDown } else { MouseKind::ScrollUp },
        column: 0,
        row: 0,
    };
    state.mouse(wheel(true), T0);
    assert_eq!(state.scroll, 3);
    state.mouse(wheel(true), T0);
    assert_eq!(state.scroll, 3);
    state.mouse(wheel(false), T0);
    assert_eq!(state.scroll, 0);

    state.key(press(KeyCode::Enter), T0);
    state.mouse(wheel(true), T0);
    state.mouse(wheel(true), T0);
    let ViewState::File(view) = &state.view else {
        panic!("expected file view");
    };
    assert_eq!(view.scroll, 6);
}

#[test]
fn list_keys_move_the_selection_and_left_folds() {
    let mut state = loaded_state();
    state.key(press(KeyCode::End), T0);
    assert_eq!(state.selection, Some(Selection::Repo("/w/clean".into())));
    state.key(press(KeyCode::Home), T0);
    assert_eq!(state.selection, Some(Selection::Repo("/w/api".into())));
    state.key(press(KeyCode::Down), T0);
    state.key(press(KeyCode::Left), T0);
    assert!(state.is_collapsed("/w/api"));
    assert_eq!(state.rows, [Row::Repo(0), Row::Repo(1), Row::Repo(2)]);
    assert_eq!(state.selection, Some(Selection::Repo("/w/api".into())));
    assert!(state.key(press(KeyCode::Char('q')), T0).quit);
}

#[test]
fn diff_notices_expire_after_their_time() {
    let mut state = loaded_state();
    state.apply(Outcome::Failed("falhou".into()), T0);
    assert!(state.notice.as_ref().is_some_and(|n| n.error && n.text == "falhou"));
    state.tick(T0 + 6000);
    assert!(state.notice.is_some());
    state.tick(T0 + 6001);
    assert!(state.notice.is_none());
}

#[test]
fn a_removed_file_view_falls_back_with_a_notice() {
    let mut state = loaded_state();
    state.key(press(KeyCode::Enter), T0);
    loaded(&mut state, vec![repo("/w/api", vec![change("other.rb", 'M', 1, 0)])]);
    assert!(matches!(state.view, ViewState::Tree));
    assert!(state
        .notice
        .as_ref()
        .is_some_and(|n| n.text == "app/a.rb não tem mais mudanças" && !n.error));
}

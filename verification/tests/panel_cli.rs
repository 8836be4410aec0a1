use herdr::panel_cli::{parse_right_panel_open_args, run_right_panel_command, PanelCommand, RightPanelOpenParams};

fn args(values: &[&str]) -> Vec<String> {
    values.iter().map(|value| (*value).to_string()).collect()
}

#[test]
fn open_args_make_relative_paths_absolute_and_keep_line() {
    let params = parse_right_panel_open_args(
        &args(&["src/a.rs", "--line", "42"]),
        Some("/repo"),
        Some("w1:p2".into()),
    )
    .unwrap();

    assert_eq!(
        params,
        RightPanelOpenParams {
            path: "/repo/src/a.rs".into(),
            line: Some(42),
            pane_id: Some("w1:p2".into()),
        }
    );
}

#[test]
fn open_args_keep_absolute_paths_and_line_shorthand_for_the_server() {
    let params = parse_right_panel_open_args(&args(&["/abs/a.rs:7"]), Some("/repo"), None).unwrap();

    assert_eq!(params.path, "/abs/a.rs:7");
    assert_eq!(params.line, None);
    assert_eq!(params.pane_id, None);
}

#[test]
fn open_args_reject_bad_input() {
    let cwd = Some("/repo");
    assert!(parse_right_panel_open_args(&args(&[]), cwd, None).is_err());
    assert!(parse_right_panel_open_args(&args(&["a", "b"]), cwd, None).is_err());
    assert!(parse_right_panel_open_args(&args(&["a", "--line"]), cwd, None).is_err());
    assert!(parse_right_panel_open_args(&args(&["a", "--line", "x"]), cwd, None).is_err());
    assert!(parse_right_panel_open_args(&args(&["a", "--col", "1"]), cwd, None).is_err());
}

#[test]
fn commands_dispatch_open_toggle_and_help() {
    assert_eq!(run_right_panel_command(&args(&[]), None, None), PanelCommand::Help(2));
    assert_eq!(run_right_panel_command(&args(&["toggle"]), None, None), PanelCommand::Toggle);
    assert_eq!(run_right_panel_command(&args(&["toggle", "x"]), None, None), PanelCommand::Help(2));
    assert_eq!(run_right_panel_command(&args(&["-h"]), None, None), PanelCommand::Help(0));
    assert_eq!(run_right_panel_command(&args(&["nope"]), None, None), PanelCommand::Help(2));
    assert!(matches!(
        run_right_panel_command(&args(&["open"]), Some("/repo"), None),
        PanelCommand::OpenError(_)
    ));
    match run_right_panel_command(&args(&["open", "b.rs"]), Some("/r"), Some("p".into())) {
        PanelCommand::Open(p) => {
            assert_eq!(p.path, "/r/b.rs");
            assert_eq!(p.pane_id.as_deref(), Some("p"));
        }
        other => panic!("{other:?}"),
    }
}

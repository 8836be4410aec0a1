use herdr::jira_ui::wrap_editor;

#[test]
fn editor_wraps_and_tracks_cursor() {
    let (rows, cursor) = wrap_editor("abcdef\ngh", 9, 4);

    assert_eq!(rows, ["abcd", "ef", "gh"]);
    assert_eq!(cursor, (2, 2));
    assert_eq!(wrap_editor("ab", 1, 4).1, (0, 1));
}

#[test]
fn editor_cursor_after_a_full_row_goes_to_a_new_one() {
    let (rows, cursor) = wrap_editor("abcd", 4, 4);
    assert_eq!(rows, ["abcd", ""]);
    assert_eq!(cursor, (1, 0));
    let (rows, cursor) = wrap_editor("", 0, 0);
    assert_eq!(rows, [""]);
    assert_eq!(cursor, (0, 0));
}

#[test]
fn editor_counts_cursor_in_bytes() {
    let (rows, cursor) = wrap_editor("ãb", 2, 10);
    assert_eq!(rows, ["ãb"]);
    assert_eq!(cursor, (0, 1));
}

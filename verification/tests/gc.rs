use herdr::gc::{command, gc_outcome, gc_run_result, parse, squash, strip_ansi, CommandOutput, GcReport};

const DRY_RUN: &str = "\n--- LIXO ---\n  \u{1b}[32mLIXO\u{1b}[0m  vakinha-web-worktrees/VK25-2811                      pr=merged                                1650MB\n\n--- ORFA ---\n  \u{1b}[33mORFA\u{1b}[0m  vakinha-api-worktrees/VK25-2001                      diretorio-ausente                        0MB\n\n--- KEEP ---\n  \u{1b}[31mKEEP\u{1b}[0m  vakinha-admin-api-worktrees/VK25-2907                pr=open                                  47MB\n  \u{1b}[31mKEEP\u{1b}[0m  vakinha-api-worktrees/VK25-2640                      pr=closed                                87MB\n\n4 worktrees | 1 removiveis (~1650MB) | 1 orfas | 2 mantidas\nrelatorio: /home/me/projects/extras/dev/PENDENTES.md\n\u{1b}[2mdry-run. para executar: vk-wt gc --apply\u{1b}[0m\n";

const NOTHING: &str = "\n--- KEEP ---\n  \u{1b}[31mKEEP\u{1b}[0m  vakinha-web-worktrees/VK25-2908                      pr=open                                  39MB\n\n30 worktrees | 0 removiveis (~0MB) | 0 orfas | 30 mantidas\nrelatorio: /home/me/projects/extras/dev/PENDENTES.md\n\u{1b}[2mdry-run. para executar: vk-wt gc --apply\u{1b}[0m\n";

#[test]
fn parses_summary_removable_and_orphan_rows() {
    let report = parse(DRY_RUN);
    assert_eq!(
        report.summary.as_deref(),
        Some("4 worktrees | 1 removiveis (~1650MB) | 1 orfas | 2 mantidas")
    );
    assert_eq!(report.removable, ["vakinha-web-worktrees/VK25-2811  pr=merged  1650MB"]);
    assert_eq!(report.orphans, ["vakinha-api-worktrees/VK25-2001  diretorio-ausente  0MB"]);
    assert!(report.has_work());
    assert!(report.lines.iter().all(|line| !line.contains('\u{1b}')));
}

#[test]
fn nothing_to_remove_has_no_work() {
    let report = parse(NOTHING);
    assert!(!report.has_work());
    assert_eq!(
        report.summary.as_deref(),
        Some("30 worktrees | 0 removiveis (~0MB) | 0 orfas | 30 mantidas")
    );
}

#[test]
fn apply_summary_is_recognised() {
    let report = parse("  \u{1b}[31mfalhou\u{1b}[0m /x: busy\n1 worktrees removidas, 0 orfas podadas.\n");
    assert_eq!(report.summary.as_deref(), Some("1 worktrees removidas, 0 orfas podadas."));
    assert_eq!(report.lines[0], "falhou /x: busy");
}

#[test]
fn strips_csi_osc_and_lone_escapes() {
    assert_eq!(
        strip_ansi("\u{1b}[1;31mred\u{1b}[0m \u{1b}]8;;http://x\u{7}link\u{1b}]8;;\u{1b}\\ \u{1b}(Bok"),
        "red link ok"
    );
}

#[test]
fn unterminated_escapes_swallow_the_rest() {
    assert_eq!(strip_ansi("a\u{1b}[12"), "a");
    assert_eq!(strip_ansi("a\u{1b}]title"), "a");
    assert_eq!(strip_ansi("a\u{1b}"), "a");
    assert_eq!(strip_ansi("a\u{1b}Xb"), "ab");
}

#[test]
fn apply_appends_the_flag_to_the_configured_command() {
    assert_eq!(command("vk-wt gc", false), "vk-wt gc");
    assert_eq!(command(" vk-wt gc ", true), "vk-wt gc --apply");
}

#[test]
fn squash_joins_words_with_two_spaces() {
    assert_eq!(squash("  a   b\tc "), "a  b  c");
    assert_eq!(squash(""), "");
}

#[test]
fn empty_report_has_no_work() {
    let report = GcReport { summary: None, removable: vec![], orphans: vec!["x".into()], lines: vec![] };
    assert!(report.has_work());
    assert_eq!(parse("").lines.len(), 0);
}

#[test]
fn gc_outcome_reads_the_report_of_a_successful_run() {
    let report = gc_outcome(b"LIXO vk-1\nresumo: 1 worktrees | 0 orfas\n", b"  \n", true, Some(0), "vk-wt").unwrap();
    assert_eq!(report.removable, vec!["vk-1".to_string()]);
    assert_eq!(report.summary.as_deref(), Some("resumo: 1 worktrees | 0 orfas"));
    assert_eq!(report.lines.len(), 2);
}

#[test]
fn gc_outcome_joins_error_output_and_names_the_exit_code() {
    let err = gc_outcome(b"l1\nl2\nl3\nl4", b"boom\n", false, Some(2), "vk-wt --apply").unwrap_err();
    assert_eq!(err, "`vk-wt --apply` saiu com 2: l3 · l4 · boom");
}

#[test]
fn gc_outcome_without_output_names_the_signal() {
    assert_eq!(gc_outcome(b"", b"", false, None, "vk-wt").unwrap_err(), "`vk-wt` saiu com sinal");
    assert_eq!(gc_outcome(b"", b"", false, Some(-1), "vk-wt").unwrap_err(), "`vk-wt` saiu com -1");
}

#[test]
fn gc_run_result_reports_a_command_that_cannot_start() {
    assert_eq!(
        gc_run_result("vk-wt", Err("No such file".into())).unwrap_err(),
        "não foi possível rodar `vk-wt`: No such file"
    );
    let out = CommandOutput { success: true, code: Some(0), stdout: b"ORFA x\n".to_vec(), stderr: Vec::new() };
    assert_eq!(gc_run_result("vk-wt", Ok(out)).unwrap().orphans, vec!["x".to_string()]);
}

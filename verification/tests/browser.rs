use imaging_portal::browser::{
    cut_scan_output, join_kill_output, kill_command, kill_message, kill_report, parse_kill_summary,
    scan_command, scan_found_processes, scan_report, KillSummary, Output, FIX_BROWSER_SCRIPT,
};
use imaging_portal::notice::Tone;

fn none() -> KillSummary {
    KillSummary {
        found: 0,
        hosts: 0,
        remaining: 0,
        clean: 0,
        unreachable: 0,
        auth_failed: false,
    }
}

#[test]
fn host_blocks_are_found() {
    assert!(scan_found_processes("scanning\n  [venus1] 2 process(es):\n   firefox\n"));
    assert!(scan_found_processes("[venus1] 2 process(es):"));
    assert!(scan_found_processes("[venus1] 2 process(es):\r\nmore"));
    assert!(!scan_found_processes(""));
    assert!(!scan_found_processes("venus1: 2 process(es):"));
    assert!(!scan_found_processes("[venus1] clean\nno process(es):"));
    assert!(!scan_found_processes("x [venus1] 2 process(es):"));
}

#[test]
fn closing_lines_are_counted() {
    let report = "[venus1] 2 process(es):\n  pid 17\n\nFound 12 process(es) on 3 host(s); 1 still \
                  running after kill.\n20 host(s) clean, 4 unreachable (see 99 above)\n";
    let expected =
        KillSummary { found: 12, hosts: 3, remaining: 1, clean: 20, unreachable: 4, ..none() };
    assert_eq!(parse_kill_summary(report), expected);
}

#[test]
fn closing_lines_may_be_indented_and_end_in_crlf() {
    let report = "  Found 1 process(es) on 1 host(s); 0 still running after kill.  \r\n\t5 host(s) \
                  clean, 6 unreachable\r\n";
    let expected =
        KillSummary { found: 1, hosts: 1, remaining: 0, clean: 5, unreachable: 6, ..none() };
    assert_eq!(parse_kill_summary(report), expected);
}

#[test]
fn lines_below_the_closing_lines_do_not_count() {
    let report = "Found 1 process(es) on 2 host(s); 3 still running after kill.\n4 host(s) clean, 5 \
                  unreachable (6)\r\n\n7 lines follow\n";
    let expected =
        KillSummary { found: 1, hosts: 2, remaining: 3, clean: 4, unreachable: 5, ..none() };
    assert_eq!(parse_kill_summary(report), expected);
}

#[test]
fn last_counting_line_counts() {
    let report = "Found 9 process(es) on 9 host(s); 9 still running after kill.\n\
                  Found 1 still running after kill\n";
    assert_eq!(parse_kill_summary(report), KillSummary { found: 1, ..none() });
}

#[test]
fn a_found_line_is_not_a_clean_line() {
    let report = "Found 3: 4 host(s) clean, 5 unreachable, 6 still running after kill";
    let expected = KillSummary { found: 3, hosts: 4, remaining: 5, ..none() };
    assert_eq!(parse_kill_summary(report), expected);
}

#[test]
fn other_lines_do_not_count() {
    assert_eq!(parse_kill_summary(""), none());
    assert_eq!(parse_kill_summary("Found 3 process(es)\n4 host(s) clean\n5 unreachable"), none());
    assert_eq!(parse_kill_summary("We Found 3; 4 still running after kill"), none());
}

#[test]
fn refused_login_is_seen() {
    let s = parse_kill_summary("venus1: Permission denied (publickey).");
    assert_eq!(s, KillSummary { auth_failed: true, ..none() });
}

#[test]
fn kill_runs_are_summed_up() {
    let check = |s: KillSummary, text: &str, tone: Tone| {
        let notice = kill_message(&s);
        assert_eq!(notice.text, text);
        assert_eq!(notice.tone, tone);
    };
    check(
        KillSummary { auth_failed: true, found: 3, ..none() },
        "Could not log into the analysis machines (SSH refused) — see the report window",
        Tone::Danger,
    );
    check(
        KillSummary { unreachable: 2, ..none() },
        "No analysis machine could be reached — see the report window",
        Tone::Danger,
    );
    check(
        none(),
        "No analysis machine could be reached — see the report window",
        Tone::Danger,
    );
    check(
        KillSummary { clean: 1, ..none() },
        "No browser or Jupyter of yours found running on the analysis machines",
        Tone::Success,
    );
    check(
        KillSummary { clean: 1, unreachable: 2, ..none() },
        "No browser or Jupyter of yours found running on the analysis machines",
        Tone::Success,
    );
    check(
        KillSummary { found: 12, hosts: 3, ..none() },
        "Killed 12 process(es) on 3 machine(s) — you can launch again",
        Tone::Success,
    );
    check(
        KillSummary { found: 12, hosts: 3, remaining: 10, ..none() },
        "10 process(es) still running after the kill — see the report window",
        Tone::Danger,
    );
}

#[test]
fn kill_output_has_complaints_below() {
    assert_eq!(join_kill_output("out\n", ""), "out\n");
    assert_eq!(join_kill_output("out\n", " \n\t"), "out\n");
    assert_eq!(join_kill_output("out", " err \n\n"), "out\n err");
}

#[test]
fn kill_report_from_bytes() {
    let run = Ok(Output { stdout: b"caf\xc3\xa9".to_vec(), stderr: b"bad \xff byte\n".to_vec() });
    assert_eq!(kill_report(&run), "caf\u{e9}\nbad \u{fffd} byte");
    assert_eq!(
        kill_report(&Err("no such file".to_owned())),
        format!("Could not run {}: no such file", FIX_BROWSER_SCRIPT)
    );
}

#[test]
fn scan_output_loses_the_hint() {
    let out = "[venus1] 2 process(es):\n  pid 17\n\nRe-run with 'kill' to kill them. Re-run with \
               'kill'";
    let report = cut_scan_output(out, "ignored");
    assert_eq!(report, "[venus1] 2 process(es):\n  pid 17");
    assert!(!report.contains("Re-run with 'kill'"));
    assert_eq!(cut_scan_output("no hint \n", "ignored"), "no hint \n");
    assert_eq!(cut_scan_output(" \n", "err Re-run with 'kill'\n"), "err Re-run with 'kill'\n");
}

#[test]
fn scan_report_from_bytes() {
    let run = Ok(Output { stdout: vec![], stderr: b"\xe2\x80\x94\xc3".to_vec() });
    assert_eq!(scan_report(&run), "\u{2014}\u{fffd}");
    assert_eq!(
        scan_report(&Err("denied".to_owned())),
        "Could not run the scan script: denied"
    );
}

#[test]
fn the_script_is_told_what_to_do() {
    let kill = kill_command();
    assert_eq!(kill.program, FIX_BROWSER_SCRIPT);
    assert_eq!(kill.args, vec![b"kill".to_vec(), b"-v".to_vec()]);
    assert_eq!((kill.variable, kill.folder), (None, None));
    let scan = scan_command();
    assert_eq!(scan.program, FIX_BROWSER_SCRIPT);
    assert_eq!(scan.args, vec![b"list".to_vec(), b"-firefox".to_vec()]);
}

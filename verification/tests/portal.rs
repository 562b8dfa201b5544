use imaging_portal::browser::FIX_BROWSER_SCRIPT;
use imaging_portal::catalog::{AppEntry, RawEntry};
use imaging_portal::display::DisplayItem;
use imaging_portal::instrument::Instrument;
use imaging_portal::ipts::IptsEntry;
use imaging_portal::notice::{Notice, Tone};
use imaging_portal::portal::{window_texts, LaunchButton, MyApp, ScanWindowKind};

fn app(name: &str, path: &str, screenshot: &str, instruments: &[&str]) -> (String, AppEntry) {
    let raw = RawEntry {
        description: Some(format!("About {}", name)),
        path: Some(path.to_owned()),
        marimo_path: Some("/bin/marimo".to_owned()),
        screenshot: Some(screenshot.to_owned()),
        category: None,
        instruments: Some(instruments.iter().map(|s| Some((*s).to_owned())).collect()),
    };
    (name.to_owned(), AppEntry::from_raw(raw))
}

fn ipts(label: &str, writable: bool) -> IptsEntry {
    IptsEntry {
        label: label.to_owned(),
        path: format!("/SNS/VENUS/{}", label).into_bytes(),
        writable,
    }
}

fn portal() -> MyApp {
    let apps = vec![
        app("general", "/apps/g.py", "/g.png", &[]),
        app("venus only", "/apps/v.py", "", &["venus"]),
        app("mars only", "/apps/m.py", "/m.png", &["MARS"]),
        app("broken", "/", "/b.png", &[]),
    ];
    MyApp::new(apps, Ok(vec![ipts("IPTS-5", true), ipts("IPTS-7", false), ipts("IPTS-x", true)]))
}

fn said(notice: Option<&Notice>) -> Option<(&str, Tone)> {
    notice.map(|n| (n.text.as_str(), n.tone))
}

#[test]
fn starts_with_venus_and_nothing_selected() {
    let p = portal();
    assert_eq!(p.instrument(), Instrument::Venus);
    assert_eq!(p.selected(), None);
    assert_eq!(p.ipts_selected(), None);
    assert_eq!(p.ipts_entries().len(), 3);
    assert_eq!(p.ipts_error(), None);
    assert_eq!(p.title(), "VENUS General Tools");
    assert_eq!(p.access_line(), "You have write access to 2 IPTS at VENUS");
    assert_eq!(p.app_display().len(), 4);
    assert!(matches!(p.app_display()[0], DisplayItem::App(3)));
    assert!(!p.keeps_polling());
    let broken = MyApp::new(Vec::new(), Err("Cannot read".to_owned()));
    assert_eq!(broken.ipts_error(), Some("Cannot read"));
    assert!(broken.ipts_entries().is_empty());
}

#[test]
fn instruments() {
    assert_eq!(Instrument::all(), [Instrument::Venus, Instrument::Mars]);
    assert_eq!(Instrument::Venus.name(), "VENUS");
    assert_eq!(Instrument::Venus.root(), "/SNS/VENUS");
    assert_eq!(
        Instrument::Venus.logo(),
        "/SNS/VENUS/shared/software/logos/logo_with_green_neutron_rays.png"
    );
    assert_eq!(Instrument::Mars.name(), "MARS");
    assert_eq!(Instrument::Mars.root(), "/HFIR/CG1D");
    assert_eq!(Instrument::Mars.logo(), "/SNS/VENUS/shared/software/logos/ImagingLogo.png");
}

#[test]
fn applications_are_selected_where_available() {
    let mut p = portal();
    p.click_app(0);
    assert_eq!(p.selected(), Some(0));
    assert_eq!(p.screenshot(), Some("/g.png"));
    assert_eq!(p.description().as_deref(), Some("About general"));
    p.click_app(2);
    assert_eq!(p.selected(), Some(0));
    assert_eq!(p.screenshot(), Some("/g.png"));
    p.click_app(1);
    assert_eq!(p.selected(), Some(1));
    assert_eq!(p.screenshot(), None);
    assert!(p.app_available(1) && !p.app_available(2));
    assert_eq!(p.not_available_hint(), "Not available at VENUS");
}

#[test]
fn switching_the_instrument_clears_what_is_tied_to_it() {
    let mut p = portal();
    p.click_app(1);
    p.click_ipts(0);
    p.select_instrument(Instrument::Mars, Ok(vec![ipts("IPTS-1", true)]));
    assert_eq!(p.instrument(), Instrument::Mars);
    assert_eq!(p.selected(), None);
    assert_eq!(p.ipts_selected(), None);
    assert_eq!(p.manual_ipts(), "");
    assert_eq!(p.ipts_entries().len(), 1);
    assert_eq!(p.title(), "MARS General Tools");
    p.click_app(0);
    p.select_instrument(Instrument::Venus, Err("gone".to_owned()));
    assert_eq!(p.selected(), Some(0));
    assert_eq!(p.screenshot(), Some("/g.png"));
    assert!(p.ipts_entries().is_empty());
    assert_eq!(p.ipts_error(), Some("gone"));
    // The same instrument again: nothing changes.
    p.select_instrument(Instrument::Venus, Ok(vec![ipts("IPTS-9", true)]));
    assert_eq!(p.ipts_error(), Some("gone"));
    p.reload_ipts(Ok(vec![ipts("IPTS-9", true)]));
    assert_eq!(p.ipts_error(), None);
    assert_eq!(p.ipts_entries().len(), 1);
}

#[test]
fn ipts_are_selected_by_click() {
    let mut p = portal();
    p.click_ipts(0);
    assert_eq!(p.ipts_selected(), Some(0));
    assert_eq!(p.manual_ipts(), "5");
    p.click_ipts(1);
    assert_eq!(p.ipts_selected(), Some(0));
    p.click_ipts(2);
    assert_eq!(p.ipts_selected(), Some(2));
    assert_eq!(p.manual_ipts(), "x");
    assert!(!p.scroll_to_ipts());
}

#[test]
fn ipts_are_selected_by_number() {
    let mut p = portal();
    p.type_ipts(" 5 ".to_owned());
    assert_eq!(p.ipts_selected(), Some(0));
    assert_eq!(p.manual_ipts(), " 5 ");
    assert!(p.scroll_to_ipts());
    assert_eq!(said(p.manual_ipts_msg()), None);
    p.ipts_drawn();
    assert!(!p.scroll_to_ipts());
    p.type_ipts("7".to_owned());
    assert_eq!(p.ipts_selected(), Some(0));
    assert_eq!(
        said(p.manual_ipts_msg()),
        Some(("IPTS-7 found but no write access", Tone::Warning))
    );
    p.type_ipts("8".to_owned());
    assert_eq!(said(p.manual_ipts_msg()), Some(("IPTS-8 not found", Tone::Danger)));
    p.type_ipts("8a".to_owned());
    assert_eq!(said(p.manual_ipts_msg()), Some(("Enter digits only", Tone::Danger)));
    p.type_ipts("x".to_owned());
    assert_eq!(said(p.manual_ipts_msg()), Some(("Enter digits only", Tone::Danger)));
    p.type_ipts("05".to_owned());
    assert_eq!(said(p.manual_ipts_msg()), Some(("IPTS-05 not found", Tone::Danger)));
    p.type_ipts(" ".to_owned());
    assert_eq!(said(p.manual_ipts_msg()), None);
    assert_eq!(p.ipts_selected(), Some(0));
}

#[test]
fn typing_the_clicked_number_changes_nothing() {
    let mut p = portal();
    p.click_ipts(0);
    let typed = p.manual_ipts().to_owned();
    p.type_ipts(typed);
    assert_eq!(p.ipts_selected(), Some(0));
    assert_eq!(p.manual_ipts(), "5");
    assert_eq!(said(p.manual_ipts_msg()), None);
}

#[test]
fn launch_button_follows_the_selection() {
    let mut p = portal();
    assert_eq!(p.launch_button(None), LaunchButton::Incomplete);
    p.click_app(0);
    assert!(!p.ready());
    assert_eq!(p.launch_button(Some(5)), LaunchButton::Incomplete);
    p.click_ipts(0);
    assert!(p.ready());
    assert_eq!(p.launch_button(None), LaunchButton::Ready);
    assert_eq!(p.launch_button(Some(4)), LaunchButton::Launching);
    assert_eq!(p.launch_button(Some(5)), LaunchButton::Ready);
    assert_eq!(LaunchButton::Launching.label(), "\u{231b} Launching\u{2026}");
    assert_eq!(LaunchButton::Ready.label(), "Launch Application");
    assert_eq!(LaunchButton::Incomplete.label(), "Select an IPTS and an Application");
}

#[test]
fn launching_needs_both_selections() {
    let mut p = portal();
    assert!(p.launch("me").is_none());
    p.click_app(0);
    assert!(p.launch("me").is_none());
    p.click_ipts(0);
    let order = p.launch("me").unwrap();
    assert_eq!(order.marimo, "/bin/marimo");
    assert_eq!(
        order.plan.dst_notebook,
        b"/SNS/VENUS/IPTS-5/shared/notebooks/imaging_marimo_me/g.py".to_vec()
    );
    assert_eq!(said(p.launch_status()), None);
    p.click_app(3);
    assert!(p.launch("me").is_none());
    assert_eq!(said(p.launch_status()), Some(("Invalid notebook path: /", Tone::Danger)));
}

#[test]
fn outcomes_of_a_launch() {
    let mut p = portal();
    p.launch_refused("create /x: full".to_owned());
    assert_eq!(said(p.launch_status()), Some(("create /x: full", Tone::Danger)));
    p.launch_failed("/bin/marimo", "not found");
    assert_eq!(
        said(p.launch_status()),
        Some(("Failed to launch /bin/marimo: not found", Tone::Danger))
    );
    assert!(!p.keeps_polling());
    p.launch_started(b"/dest\xff", None);
    assert_eq!(said(p.launch_status()), Some(("Provisioned /dest\u{fffd}", Tone::Success)));
    assert!(p.keeps_polling() && !p.scan_window_open());
    p.launch_started_in("/dest", Some("held elsewhere".to_owned()));
    assert_eq!(
        said(p.launch_status()),
        Some((
            "Your browser is already running on another machine (see the report window)",
            Tone::Danger
        ))
    );
    assert_eq!(p.scan_output(), Some("held elsewhere"));
    assert!(p.scan_window_open());
    assert_eq!(p.scan_window_kind(), ScanWindowKind::Scan);
    p.close_report();
    assert!(!p.scan_window_open());
}

#[test]
fn kill_runs() {
    let mut p = portal();
    assert!(!p.kill_stuck_browsers(false));
    let missing = format!("Missing script {}", FIX_BROWSER_SCRIPT);
    assert_eq!(said(p.cleanup_msg()), Some((missing.as_str(), Tone::Danger)));
    assert!(p.kill_stuck_browsers(true));
    assert!(p.cleanup_running());
    assert_eq!(
        said(p.cleanup_msg()),
        Some((
            "Killing stuck browser sessions on the analysis machines\u{2026}",
            Tone::Warning
        ))
    );
    // One run at a time.
    assert!(!p.kill_stuck_browsers(true));
    assert!(!p.kill_stuck_browsers(false));
    let report = "Found 2 process(es) on 1 host(s); 0 still running after kill.";
    p.finish_kill_stuck_browsers(report.to_owned());
    assert!(p.cleanup_running());
    assert!(!p.kill_stuck_browsers(true));
    p.end_kill_run();
    assert!(!p.cleanup_running());
    assert_eq!(
        said(p.cleanup_msg()),
        Some(("Killed 2 process(es) on 1 machine(s) — you can launch again", Tone::Success))
    );
    assert_eq!(p.scan_output(), Some(report));
    assert!(p.scan_window_open());
    assert_eq!(p.scan_window_kind(), ScanWindowKind::Kill);
    assert!(p.kill_stuck_browsers(true));
    p.lose_kill_run();
    assert!(!p.cleanup_running());
    assert_eq!(said(p.cleanup_msg()), None);
}

#[test]
fn silent_kill_runs_are_no_success() {
    let unrun = format!("Could not run {}: No such file or directory", FIX_BROWSER_SCRIPT);
    for report in ["", unrun.as_str(), "3 host(s) clean\n"] {
        let mut p = portal();
        p.click_app(0);
        p.click_ipts(0);
        assert!(p.kill_stuck_browsers(true));
        p.end_kill_run();
        p.finish_kill_stuck_browsers(report.to_owned());
        assert_eq!(
            said(p.cleanup_msg()),
            Some(("No analysis machine could be reached — see the report window", Tone::Danger))
        );
        assert_eq!(p.scan_output(), Some(report));
        assert!(p.scan_window_open());
        assert_eq!(p.scan_window_kind(), ScanWindowKind::Kill);
        assert_eq!((p.selected(), p.ipts_selected()), (Some(0), Some(0)));
        assert_eq!(said(p.launch_status()), None);
        assert!(p.kill_stuck_browsers(true));
    }
}

#[test]
fn orders_say_what_to_run() {
    let mut p = portal();
    p.click_app(0);
    p.click_ipts(0);
    let run = p.launch("me").unwrap().command();
    assert_eq!(run.program, "/bin/marimo");
    assert_eq!(run.args, vec![b"run".to_vec(), b"g.py".to_vec(), b"--headless".to_vec()]);
    assert_eq!(
        run.variable,
        Some(("MARIMO_OUTPUT_MAX_BYTES".to_owned(), "20000000".to_owned()))
    );
    assert_eq!(
        run.folder,
        Some(b"/SNS/VENUS/IPTS-5/shared/notebooks/imaging_marimo_me".to_vec())
    );
}

#[test]
fn scans_for_the_browser() {
    let mut p = portal();
    assert!(!p.start_browser_scan("Why", Some("lock".to_owned()), true));
    assert_eq!(
        said(p.launch_status()),
        Some((
            "Why — your browser is running on another machine (see the report window)",
            Tone::Danger
        ))
    );
    assert_eq!(p.scan_output(), Some("lock"));
    p.close_report();
    assert!(!p.start_browser_scan("Why", None, false));
    assert_eq!(
        said(p.launch_status()),
        Some(("Why — your browser may be running on another analysis machine", Tone::Danger))
    );
    p.poll_browser_scan(Some("not asked for".to_owned()));
    assert_eq!(p.scan_output(), Some("lock"));
    assert!(p.start_browser_scan("Why", None, true));
    assert!(p.scan_running() && p.keeps_polling());
    let scanning =
        "Why — scanning the analysis machines for an already-running browser\u{2026}";
    assert_eq!(said(p.launch_status()), Some((scanning, Tone::Warning)));
    // One scan at a time.
    assert!(!p.start_browser_scan("Again", Some("lock 2".to_owned()), true));
    assert_eq!(said(p.launch_status()), Some((scanning, Tone::Warning)));
    p.poll_browser_scan(None);
    assert!(p.scan_running());
    p.poll_browser_scan(Some("[venus1] 1 process(es):".to_owned()));
    assert!(!p.scan_running() && p.scan_window_open());
    assert_eq!(
        said(p.launch_status()),
        Some((
            "Your browser is already running on another machine (see the report window)",
            Tone::Danger
        ))
    );
    assert_eq!(p.scan_window_kind(), ScanWindowKind::Scan);
    p.close_report();
    assert!(p.start_browser_scan("Why", None, true));
    p.poll_browser_scan(Some("all clean".to_owned()));
    assert!(!p.scan_window_open());
    assert_eq!(p.scan_output(), Some("all clean"));
    assert_eq!(
        said(p.launch_status()),
        Some((
            "Firefox failed, but no already-running browser was found on the analysis machines",
            Tone::Warning
        ))
    );
}

#[test]
fn logos_are_loaded_once() {
    let mut p = portal();
    assert_eq!(p.logo_to_load(), Some(Instrument::Venus));
    assert_eq!(p.logo_to_load(), None);
    p.select_instrument(Instrument::Mars, Ok(Vec::new()));
    assert_eq!(p.logo_to_load(), Some(Instrument::Mars));
    assert_eq!(p.logo_to_load(), None);
}

#[test]
fn report_window_texts() {
    let scan = window_texts(ScanWindowKind::Scan);
    assert_eq!(scan.title, "Browser already running elsewhere");
    assert!(scan.intro.starts_with("Firefox cannot open the notebook on this machine: your"));
    assert!(scan.advice.contains("\u{1F527} Fix browser issue"));
    let kill = window_texts(ScanWindowKind::Kill);
    assert_eq!(kill.title, "Fix browser issue — result");
    assert!(kill.intro.contains("marked \"unreachable\" could not"));
    assert!(kill.advice.ends_with("close it there."));
}

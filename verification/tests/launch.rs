use imaging_portal::launch::{address_in, browser_exit, browser_not_started, open_command, OutputWatch};

#[test]
fn addresses_end_at_white_space() {
    assert_eq!(
        address_in("  URL: http://localhost:2718/x?y=1 (press Ctrl+C)").as_deref(),
        Some("http://localhost:2718/x?y=1")
    );
    assert_eq!(address_in("http://a\thttp://b").as_deref(), Some("http://a"));
    assert_eq!(address_in("x\u{2003}http://a\u{2003}b").as_deref(), Some("http://a"));
    assert_eq!(address_in("http://").as_deref(), Some("http://"));
    assert_eq!(address_in("https://secure"), None);
    assert_eq!(address_in(""), None);
}

#[test]
fn only_the_first_address_is_opened() {
    let mut watch = OutputWatch::new();
    assert_eq!(watch.read("starting"), None);
    assert!(!watch.opened);
    assert_eq!(watch.read("at http://a").as_deref(), Some("http://a"));
    assert!(watch.opened);
    assert_eq!(watch.read("at http://b"), None);
    assert_eq!(watch.read("done"), None);
    assert!(watch.opened);
}

#[test]
fn browser_failures() {
    assert_eq!(browser_exit(Some(false)).as_deref(), Some("Firefox could not open the notebook"));
    assert_eq!(browser_exit(Some(true)), None);
    assert_eq!(browser_exit(None), None);
    assert_eq!(browser_not_started("no such file"), "Could not start firefox: no such file");
}

#[test]
fn addresses_are_opened_in_firefox() {
    let open = open_command("http://a?b=\u{e9}");
    assert_eq!(open.program, "firefox");
    assert_eq!(open.args, vec!["http://a?b=\u{e9}".as_bytes().to_vec()]);
}

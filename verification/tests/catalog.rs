use imaging_portal::catalog::{
    applications_from, load_applications, parse_applications, with_double_quotes, AppEntry, RawEntry, JSON_PATH,
};

fn raw() -> RawEntry {
    RawEntry {
        description: None,
        path: None,
        marimo_path: None,
        screenshot: None,
        category: None,
        instruments: None,
    }
}

fn named(instruments: &[&str]) -> AppEntry {
    let items = instruments.iter().map(|s| Some((*s).to_owned())).collect();
    AppEntry::from_raw(RawEntry { instruments: Some(items), ..raw() })
}

#[test]
fn availability() {
    assert!(named(&[]).available_at("VENUS"));
    assert!(named(&["VENUS"]).available_at("VENUS"));
    assert!(named(&["mars", "Venus"]).available_at("VENUS"));
    assert!(named(&["venus"]).available_at("vEnUs"));
    assert!(!named(&["MARS"]).available_at("VENUS"));
    assert!(!named(&["VENUS2"]).available_at("VENUS"));
}

#[test]
fn raw_entries_become_applications() {
    let app = AppEntry::from_raw(RawEntry {
        description: Some("d".to_owned()),
        path: Some("p".to_owned()),
        marimo_path: Some("m".to_owned()),
        screenshot: Some("s".to_owned()),
        category: Some("c".to_owned()),
        instruments: Some(vec![
            Some("  VENUS\t".to_owned()),
            None,
            Some(" ".to_owned()),
            Some("MARS".to_owned()),
        ]),
    });
    assert_eq!(app.description, "d");
    assert_eq!(app.path, "p");
    assert_eq!(app.marimo_path, "m");
    assert_eq!(app.screenshot, "s");
    assert_eq!(app.category, "c");
    assert_eq!(app.instruments, vec!["VENUS", "MARS"]);
    let empty = AppEntry::from_raw(raw());
    assert_eq!(empty.description, "");
    assert_eq!(empty.category, "");
    assert!(empty.instruments.is_empty());
}

#[test]
fn applications_keep_their_names_and_order() {
    let entry = |d: &str| RawEntry { description: Some(d.to_owned()), ..raw() };
    let apps = applications_from(vec![
        ("b".to_owned(), entry("B")),
        ("a".to_owned(), entry("A")),
        ("b".to_owned(), raw()),
    ]);
    let seen: Vec<(&str, &str)> =
        apps.iter().map(|a| (a.0.as_str(), a.1.description.as_str())).collect();
    assert_eq!(seen, vec![("b", "B"), ("a", "A"), ("b", "")]);
    assert!(applications_from(Vec::new()).is_empty());
}

#[test]
fn blank_instruments_are_no_restriction() {
    assert!(named(&["", "  "]).available_at("VENUS"));
}

#[test]
fn quotes_are_turned() {
    assert_eq!(with_double_quotes("{'a': \"b\"}"), "{\"a\": \"b\"}");
    assert_eq!(with_double_quotes(""), "");
    assert_eq!(with_double_quotes("\u{e9}'"), "\u{e9}\"");
}

#[test]
fn catalog_is_read_in_the_order_of_names() {
    let text = "{'b': {'description': 'B', 'path': '/n/b.py', 'marimo_path': '/bin/marimo',
                       'screenshot': '/s.png', 'category': 'Reduction',
                       'instruments': [' VENUS ', 7, '', 'mars']},
                 'a': {'description': 5, 'instruments': 'VENUS'},
                 'c': 'text', 'B': null, 'd': ['path']}";
    let apps = parse_applications(text).unwrap();
    let names: Vec<&str> = apps.iter().map(|a| a.0.as_str()).collect();
    assert_eq!(names, vec!["B", "a", "b", "c", "d"]);
    let b = &apps[2].1;
    assert_eq!(b.description, "B");
    assert_eq!(b.path, "/n/b.py");
    assert_eq!(b.marimo_path, "/bin/marimo");
    assert_eq!(b.screenshot, "/s.png");
    assert_eq!(b.category, "Reduction");
    assert_eq!(b.instruments, vec!["VENUS", "mars"]);
    for i in [0, 1, 3, 4] {
        let app = &apps[i].1;
        assert_eq!(app.description, "");
        assert_eq!(app.path, "");
        assert!(app.instruments.is_empty());
    }
}

#[test]
fn a_name_that_comes_twice_counts_once() {
    let apps = parse_applications("{'a': {'path': '1'}, 'a': {'path': '2'}}").unwrap();
    assert_eq!(apps.len(), 1);
    assert_eq!(apps[0].1.path, "2");
}

#[test]
fn bad_catalogs_are_refused() {
    let e = parse_applications("[]").unwrap_err();
    let reason = serde_json::from_str::<std::collections::BTreeMap<String, serde_json::Value>>("[]")
        .unwrap_err()
        .to_string();
    assert_eq!(e.reason, reason);
    assert!(parse_applications("{'a': ").unwrap_err().reason.contains("EOF"));
    assert!(parse_applications("").is_err());
}

#[test]
fn loading_says_what_is_wrong() {
    let good = load_applications(Ok("{'a': {}}".to_owned()));
    assert_eq!(good.applications.len(), 1);
    assert_eq!(good.complaint, None);
    let empty = load_applications(Ok("{}".to_owned()));
    assert!(empty.applications.is_empty());
    assert_eq!(empty.complaint, None);
    let bad = load_applications(Ok("{".to_owned()));
    assert!(bad.applications.is_empty());
    let reason = parse_applications("{").unwrap_err().reason;
    assert_eq!(bad.complaint, Some(format!("Failed to parse JSON: {}", reason)));
    let missing = load_applications(Err("not found".to_owned()));
    assert!(missing.applications.is_empty());
    assert_eq!(missing.complaint, Some(format!("Failed to read {}: not found", JSON_PATH)));
}

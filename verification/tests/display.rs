use imaging_portal::catalog::{AppEntry, RawEntry};
use imaging_portal::display::{arrange, build_display, DisplayItem};

fn app(name: &str, category: &str) -> (String, AppEntry) {
    let raw = RawEntry {
        description: None,
        path: None,
        marimo_path: None,
        screenshot: None,
        category: Some(category.to_owned()),
        instruments: None,
    };
    (name.to_owned(), AppEntry::from_raw(raw))
}

fn show(items: &[DisplayItem]) -> Vec<String> {
    items
        .iter()
        .map(|item| match item {
            DisplayItem::App(i) => format!("{}", i),
            DisplayItem::Section(c, members) => format!("{} {:?}", c, members),
        })
        .collect()
}

#[test]
fn applications_and_sections_are_mixed_by_title() {
    let apps = vec![
        app("Alpha", "Tools"),
        app("Zeta", ""),
        app("beta", "Imaging"),
        app("gamma", "Tools"),
        app("middle", ""),
        app("apple", ""),
    ];
    assert_eq!(
        show(&build_display(&apps)),
        vec!["5", "Imaging [2]", "4", "Tools [0, 3]", "1"]
    );
}

#[test]
fn case_does_not_matter_for_the_order() {
    let apps = vec![app("B", ""), app("a", ""), app("C", ""), app("b", "")];
    assert_eq!(show(&build_display(&apps)), vec!["1", "0", "3", "2"]);
    // Other letters than ASCII too.
    let apps = vec![app("\u{c9}b", ""), app("\u{e9}a", "")];
    assert_eq!(show(&build_display(&apps)), vec!["1", "0"]);
}

#[test]
fn equal_titles_go_applications_first() {
    let apps = vec![
        app("x", "tools"),
        app("y", "Tools"),
        app("TOOLS", ""),
        app("tools", ""),
        app("z", "tools"),
    ];
    assert_eq!(
        show(&build_display(&apps)),
        vec!["2", "3", "Tools [1]", "tools [0, 4]"]
    );
}

#[test]
fn every_application_is_listed_once() {
    let categories = ["", "b", "A", "a", ""];
    let names = ["q", "B", "a", "Z", "m", "A", "z"];
    for n in 0..20 {
        let apps: Vec<(String, AppEntry)> =
            (0..n).map(|i| app(names[i * 3 % 7], categories[i * 2 % 5])).collect();
        let mut seen = Vec::new();
        for item in build_display(&apps) {
            match item {
                DisplayItem::App(i) => seen.push(i),
                DisplayItem::Section(_, members) => seen.extend(members),
            }
        }
        seen.sort();
        assert_eq!(seen, (0..n).collect::<Vec<usize>>());
    }
}

#[test]
fn keys_decide_the_order() {
    let apps = vec![app("a", ""), app("b", "s"), app("c", "")];
    let keys = |k: [&str; 3]| k.iter().map(|s| (*s).to_owned()).collect::<Vec<String>>();
    let list = arrange(&apps, &keys(["3", "0", "1"]), &keys(["", "2", ""]));
    assert_eq!(show(&list), vec!["2", "s [1]", "0"]);
}

#[test]
fn no_applications_no_rows() {
    assert!(build_display(&Vec::new()).is_empty());
}

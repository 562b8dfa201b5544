use imaging_portal::ipts::{
    destination_for, ipts_number_of, list_ipts, sort_found, user_id, FoundDir, IptsEntry,
};
use imaging_portal::paths::{path_file_name, path_parent};

fn dir(label: &str, accessible: bool, writable: bool) -> FoundDir {
    FoundDir { name: label.as_bytes().to_vec(), is_dir: true, accessible, writable }
}

#[test]
fn numbers_of_labels() {
    assert_eq!(ipts_number_of("IPTS-123"), Some(123));
    assert_eq!(ipts_number_of("IPTS-0099"), Some(99));
    assert_eq!(ipts_number_of("IPTS-18446744073709551615"), Some(u64::MAX));
    assert_eq!(ipts_number_of("IPTS-test"), Some(u64::MAX));
    assert_eq!(ipts_number_of("IPTS-"), Some(u64::MAX));
    assert_eq!(ipts_number_of("IPTS"), None);
    assert_eq!(ipts_number_of("ipts-1"), None);
    assert_eq!(ipts_number_of("shared"), None);
}

#[test]
fn list_is_sorted_by_number() {
    let found = vec![
        dir("IPTS-30", true, false),
        dir("shared", true, true),
        dir("IPTS-4", true, true),
        dir("IPTS-test", true, true),
        dir("IPTS-5", false, false),
        dir("IPTS-200", true, true),
        dir("IPTS-030", true, true),
        dir("IPTS-other", true, false),
    ];
    let list = list_ipts("/SNS/VENUS", Ok(found)).unwrap();
    let labels: Vec<&str> = list.iter().map(|e| e.label.as_str()).collect();
    assert_eq!(
        labels,
        vec!["IPTS-4", "IPTS-30", "IPTS-030", "IPTS-200", "IPTS-test", "IPTS-other"]
    );
    assert!(list[0].writable && !list[1].writable);
    assert_eq!(list[0].path, b"/SNS/VENUS/IPTS-4".to_vec());
}

#[test]
fn list_agrees_with_a_stable_sort() {
    for seed in 0..50usize {
        let found: Vec<FoundDir> = (0..12)
            .map(|i| dir(&format!("IPTS-{}", (i * 7 + seed * i * i) % 5), i % 4 != 3, i % 2 == 0))
            .collect();
        let mut expected: Vec<(u64, String, bool)> = found
            .iter()
            .filter(|d| d.accessible)
            .map(|d| (String::from_utf8(d.name.clone()).unwrap(), d.writable))
            .map(|(label, writable)| (ipts_number_of(&label).unwrap(), label, writable))
            .collect();
        expected.sort_by_key(|e| e.0);
        let list = list_ipts("/r", Ok(found)).unwrap();
        let seen: Vec<(String, bool)> =
            list.into_iter().map(|e| (e.label, e.writable)).collect();
        assert_eq!(seen, expected.into_iter().map(|e| (e.1, e.2)).collect::<Vec<_>>());
    }
}

#[test]
fn names_need_not_be_text() {
    let found = vec![
        FoundDir { name: b"IPTS-9\xff".to_vec(), is_dir: true, accessible: true, writable: true },
        FoundDir { name: b"IPTS-\xc3\xa9".to_vec(), is_dir: true, accessible: true, writable: false },
        FoundDir { name: b"IPTS-9".to_vec(), is_dir: true, accessible: true, writable: false },
    ];
    let list = list_ipts("/HFIR/CG1D", Ok(found)).unwrap();
    assert_eq!(list[0].label, "IPTS-9");
    assert_eq!(list[1].label, "IPTS-9\u{fffd}");
    assert_eq!(list[1].path, b"/HFIR/CG1D/IPTS-9\xff".to_vec());
    assert_eq!(list[2].label, "IPTS-\u{e9}");
    assert_eq!(
        destination_for(&list[1], "me"),
        b"/HFIR/CG1D/IPTS-9\xff/shared/notebooks/imaging_marimo_me".to_vec()
    );
}

#[test]
fn labels_decide_what_is_listed() {
    let found = vec![dir("a", true, true), dir("b", true, false), dir("c", false, true)];
    let labels = ["IPTS-2", "IPTS-1", "IPTS-0"].map(|s| s.to_owned()).to_vec();
    let list = sort_found("/r", &found, &labels);
    assert_eq!(list.len(), 2);
    assert_eq!((list[0].label.as_str(), list[0].path.as_slice()), ("IPTS-1", b"/r/b".as_slice()));
    assert_eq!((list[1].label.as_str(), list[1].path.as_slice()), ("IPTS-2", b"/r/a".as_slice()));
}

#[test]
fn files_are_not_listed() {
    let file = FoundDir { is_dir: false, ..dir("IPTS-5", true, true) };
    let list = list_ipts("/r", Ok(vec![file, dir("IPTS-6", true, true)])).unwrap();
    assert_eq!(list.len(), 1);
    assert_eq!(list[0].label, "IPTS-6");
}

#[test]
fn unreadable_root_is_reported() {
    let e = list_ipts("/HFIR/CG1D", Err("gone".to_owned())).unwrap_err();
    assert_eq!(e, "Cannot read /HFIR/CG1D: gone");
}

#[test]
fn users() {
    assert_eq!(user_id(Some("j9x".to_owned())), "j9x");
    assert_eq!(user_id(None), "user");
}

#[test]
fn destination_is_below_the_ipts() {
    let entry = |path: &[u8]| IptsEntry {
        label: "IPTS-1".to_owned(),
        path: path.to_vec(),
        writable: true,
    };
    let dest = destination_for(&entry(b"/SNS/VENUS/IPTS-1"), "j9x");
    assert_eq!(dest, b"/SNS/VENUS/IPTS-1/shared/notebooks/imaging_marimo_j9x".to_vec());
    assert_eq!(path_parent(&dest), Some(b"/SNS/VENUS/IPTS-1/shared/notebooks".to_vec()));
    assert_eq!(path_file_name(&dest), Some(b"imaging_marimo_j9x".to_vec()));
    assert_eq!(
        destination_for(&entry(b"/x\xff/"), "\u{e9}"),
        b"/x\xff/shared/notebooks/imaging_marimo_\xc3\xa9".to_vec()
    );
}

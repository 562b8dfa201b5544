use imaging_portal::lock::{
    addresses_command, firefox_remote_lock_report, host_of, local_addresses, lock_block,
    lock_report_for, lookup_command, remote_locks, remote_locks_from, remote_owner_of, LockLink,
    RawLink, RemoteLock, STALE_LOCK_ADVICE,
};

fn link(profile: &str, target: &str) -> RawLink {
    RawLink { profile: profile.as_bytes().to_vec(), target: target.as_bytes().to_vec() }
}

#[test]
fn addresses_are_words() {
    assert_eq!(local_addresses(Some("10.0.0.1 10.0.0.2 \n")), vec!["10.0.0.1", "10.0.0.2"]);
    assert!(local_addresses(Some(" \n")).is_empty());
    assert!(local_addresses(None).is_empty());
}

#[test]
fn owners_on_other_machines() {
    let local = vec!["10.0.0.1".to_owned()];
    assert_eq!(
        remote_owner_of("10.0.0.9:+4711", &local),
        Some(("10.0.0.9".to_owned(), "4711".to_owned()))
    );
    assert_eq!(
        remote_owner_of("a:+b:+c", &local),
        Some(("a".to_owned(), "b:+c".to_owned()))
    );
    assert_eq!(remote_owner_of("10.0.0.1:+4711", &local), None);
    assert_eq!(remote_owner_of("127.0.1.1:+4711", &local), None);
    assert_eq!(remote_owner_of("10.0.0.9:4711", &local), None);
    // Only the whole address counts.
    assert!(remote_owner_of("10.0.0.11:+1", &local).is_some());
}

#[test]
fn remote_links_are_kept_in_order() {
    let links = vec![
        link("p1", "10.0.0.9:+1"),
        link("p2", "10.0.0.1:+2"),
        link("p3", "nonsense"),
        link("p4", "10.0.0.8:+4"),
    ];
    let locks = remote_locks(&links, &Some(b"10.0.0.1 \n".to_vec()));
    let seen: Vec<(&str, &str, &str)> =
        locks.iter().map(|l| (l.profile.as_str(), l.ip.as_str(), l.pid.as_str())).collect();
    assert_eq!(seen, vec![("p1", "10.0.0.9", "1"), ("p4", "10.0.0.8", "4")]);
    assert!(locks.iter().all(|l| l.lookup.is_none()));
    assert_eq!(remote_locks(&links, &None).len(), 3);
}

#[test]
fn links_need_not_be_text() {
    let links = vec![RawLink { profile: b"p\xff".to_vec(), target: b"ip\xfe:+1".to_vec() }];
    let locks = remote_locks(&links, &None);
    assert_eq!(locks[0].profile, "p\u{fffd}");
    assert_eq!(locks[0].ip, "ip\u{fffd}");
    assert_eq!(locks[0].pid, "1");
}

#[test]
fn own_addresses_are_not_remote() {
    let text = |t: &str| LockLink { profile: "p".to_owned(), target: t.to_owned() };
    let links = vec![text("10.0.0.1:+1"), text("10.0.0.2:+2"), text("127.0.0.1:+3")];
    let locks = remote_locks_from(&links, &vec!["10.0.0.2".to_owned()]);
    assert_eq!(locks.len(), 1);
    assert_eq!((locks[0].ip.as_str(), locks[0].pid.as_str()), ("10.0.0.1", "1"));
}

#[test]
fn host_is_the_second_word() {
    assert_eq!(host_of(Some("10.0.0.9  venus9.ornl.gov venus9\n"), "10.0.0.9"), "venus9.ornl.gov");
    assert_eq!(host_of(Some("10.0.0.9\n"), "10.0.0.9"), "10.0.0.9");
    assert_eq!(host_of(Some(""), "10.0.0.9"), "10.0.0.9");
    assert_eq!(host_of(None, "10.0.0.9"), "10.0.0.9");
}

#[test]
fn report_names_each_lock() {
    let locks = vec![
        RemoteLock {
            profile: "abc.default".to_owned(),
            ip: "10.0.0.9".to_owned(),
            pid: "4711".to_owned(),
            lookup: Some(b"10.0.0.9 venus\xff9 x".to_vec()),
        },
        RemoteLock {
            profile: "def".to_owned(),
            ip: "10.0.0.8".to_owned(),
            pid: "12".to_owned(),
            lookup: None,
        },
    ];
    let expected = "[venus\u{fffd}9] (10.0.0.9) firefox PID 4711 holds the profile lock\n    \
                    (profile abc.default)\n    to close it from here:  ssh venus\u{fffd}9  then  kill 4711\n\n\
                    [10.0.0.8] (10.0.0.8) firefox PID 12 holds the profile lock\n    \
                    (profile def)\n    to close it from here:  ssh 10.0.0.8  then  kill 12\n\n\
                    If Firefox is NOT actually running there, the lock is stale:\n    \
                    delete the 'lock' and '.parentlock' files in that profile folder\n    \
                    under ~/.mozilla/firefox/.";
    assert_eq!(firefox_remote_lock_report(&locks).as_deref(), Some(expected));
    let hosts = vec!["h1".to_owned(), "h2".to_owned()];
    let named = lock_report_for(&locks, &hosts).unwrap();
    assert!(named.starts_with(&lock_block("h1", "10.0.0.9", "4711", "abc.default")));
    assert!(named.ends_with(STALE_LOCK_ADVICE));
}

#[test]
fn nothing_to_report_without_a_remote_lock() {
    assert_eq!(firefox_remote_lock_report(&Vec::new()), None);
    let own = remote_locks(&vec![link("p", "127.0.0.1:+1")], &None);
    assert_eq!(firefox_remote_lock_report(&own), None);
}

#[test]
fn hosts_are_looked_up() {
    let own = addresses_command();
    assert_eq!((own.program.as_str(), own.args), ("hostname", vec![b"-I".to_vec()]));
    let host = lookup_command("10.0.0.9");
    assert_eq!(host.program, "getent");
    assert_eq!(host.args, vec![b"hosts".to_vec(), b"10.0.0.9".to_vec()]);
}

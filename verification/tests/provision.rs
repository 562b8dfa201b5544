use imaging_portal::catalog::{AppEntry, RawEntry};
use imaging_portal::provision::{
    copy_action, copy_action_for, next_action, provision, step_message, Action, CopyAction, Event,
    ItemKind, Plan, Step,
};

fn app(path: &str) -> AppEntry {
    AppEntry::from_raw(RawEntry {
        description: None,
        path: Some(path.to_owned()),
        marimo_path: None,
        screenshot: None,
        category: None,
        instruments: None,
    })
}

#[test]
fn plan_of_a_notebook() {
    let plan = provision(&app("/apps/marimo/ct.py"), b"/ipts/shared/notebooks/me").unwrap();
    assert_eq!(plan.file_name, b"ct.py".to_vec());
    assert_eq!(plan.notebook, b"/apps/marimo/ct.py".to_vec());
    assert_eq!(plan.dst_notebook, b"/ipts/shared/notebooks/me/ct.py".to_vec());
    assert_eq!(plan.dest, b"/ipts/shared/notebooks/me".to_vec());
    assert_eq!(plan.notebooks_dir, Some(b"/ipts/shared/notebooks".to_vec()));
    assert_eq!(plan.utilities_src, b"/apps/marimo/utilities".to_vec());
    assert_eq!(plan.utilities_dst, b"/ipts/shared/notebooks/me/utilities".to_vec());
}

#[test]
fn plan_of_a_bare_name() {
    let plan = provision(&app("ct.py"), b"/").unwrap();
    assert_eq!(plan.dst_notebook, b"/ct.py".to_vec());
    assert_eq!(plan.utilities_src, b"utilities".to_vec());
    assert_eq!(plan.notebooks_dir, None);
}

#[test]
fn paths_without_a_file_name_are_refused() {
    for path in ["", "/", "..", "/apps/..", "."] {
        assert_eq!(
            provision(&app(path), b"/dest").unwrap_err(),
            format!("Invalid notebook path: {}", path)
        );
    }
}

#[test]
fn failed_steps_are_named() {
    let plan = provision(&app("/apps/ct.py"), b"/dest\xff").unwrap();
    assert_eq!(plan.step_failed(Step::CreateDest, "full"), "create /dest\u{fffd}: full");
    assert_eq!(plan.step_failed(Step::OpenDest, "no"), "chmod 777 /dest\u{fffd}: no");
    assert_eq!(
        plan.step_failed(Step::CopyNotebook, "no"),
        "copy /apps/ct.py -> /dest\u{fffd}/ct.py: no"
    );
    assert_eq!(
        plan.step_failed(Step::CopyUtilities, "no"),
        "copy /apps/utilities -> /dest\u{fffd}/utilities: no"
    );
    assert_eq!(step_message(Step::CopyNotebook, "a", "b", "c"), "copy a -> b: c");
}

#[test]
fn cache_folders_are_skipped() {
    for name in ["__pycache__", "__marimo__"] {
        for exists in [false, true] {
            for kind in [ItemKind::Folder, ItemKind::FolderLink] {
                assert_eq!(copy_action(name.as_bytes(), kind, exists), CopyAction::Skip);
                assert_eq!(copy_action_for(name, kind, exists), CopyAction::Skip);
            }
        }
        // A file of that name is no cache.
        assert_eq!(copy_action(name.as_bytes(), ItemKind::File, false), CopyAction::Copy);
        assert_eq!(copy_action(name.as_bytes(), ItemKind::File, true), CopyAction::Replace);
    }
    for name in ["pycache", "__MARIMO__"] {
        assert_eq!(copy_action_for(name, ItemKind::Folder, false), CopyAction::Descend);
        assert_eq!(copy_action_for(name, ItemKind::Folder, true), CopyAction::Descend);
    }
    assert_eq!(copy_action(b"a.py", ItemKind::File, false), CopyAction::Copy);
    assert_eq!(copy_action(b"a.py", ItemKind::File, true), CopyAction::Replace);
    assert_eq!(copy_action(b"link", ItemKind::FolderLink, false), CopyAction::Copy);
    assert_eq!(copy_action(b"__pycache__\xff", ItemKind::Folder, true), CopyAction::Descend);
}

/// Carries out a plan: `there` answers what is looked for, and `broken` fails.
fn run(plan: &Plan, there: bool, broken: Option<Action>) -> (Vec<Action>, Result<(), String>) {
    let mut done = Vec::new();
    let mut action = Action::CreateDest;
    while action != Action::Finished {
        done.push(action);
        let event = if Some(action) == broken {
            Event::Failed("oops".to_owned())
        } else if action == Action::FindNotebook || action == Action::FindUtilities {
            Event::Found(there)
        } else {
            Event::Done
        };
        match plan.advance(action, event) {
            Ok(next) => action = next,
            Err(e) => return (done, Err(e)),
        }
    }
    (done, Ok(()))
}

#[test]
fn plans_are_carried_out_in_order() {
    let plan = provision(&app("/apps/ct.py"), b"/ipts/me").unwrap();
    let all = vec![
        Action::CreateDest,
        Action::OpenNotebooks,
        Action::OpenDest,
        Action::FindNotebook,
        Action::RemoveNotebook,
        Action::CopyNotebook,
        Action::FindUtilities,
        Action::CopyUtilities,
        Action::OpenAll,
    ];
    assert_eq!(run(&plan, true, None), (all.clone(), Ok(())));
    let short: Vec<Action> = all
        .iter()
        .copied()
        .filter(|a| *a != Action::RemoveNotebook && *a != Action::CopyUtilities)
        .collect();
    assert_eq!(run(&plan, false, None), (short, Ok(())));
    let top = provision(&app("/apps/ct.py"), b"/").unwrap();
    assert!(!run(&top, true, None).0.contains(&Action::OpenNotebooks));
    // These may fail.
    for a in [Action::OpenNotebooks, Action::RemoveNotebook, Action::OpenAll] {
        assert_eq!(run(&plan, true, Some(a)), (all.clone(), Ok(())));
    }
}

#[test]
fn failed_steps_end_the_provisioning() {
    let plan = provision(&app("/apps/ct.py"), b"/ipts/me").unwrap();
    for (action, message) in [
        (Action::CreateDest, "create /ipts/me: oops"),
        (Action::OpenDest, "chmod 777 /ipts/me: oops"),
        (Action::CopyNotebook, "copy /apps/ct.py -> /ipts/me/ct.py: oops"),
        (Action::CopyUtilities, "copy /apps/utilities -> /ipts/me/utilities: oops"),
    ] {
        let (done, res) = run(&plan, true, Some(action));
        assert_eq!(done.last(), Some(&action));
        assert_eq!(res, Err(message.to_owned()));
    }
    // A folder that is not there is not copied.
    assert_eq!(run(&plan, false, Some(Action::CopyUtilities)).1, Ok(()));
    assert_eq!(
        next_action(true, Action::CopyNotebook, Event::Failed("full".to_owned())),
        Err((Step::CopyNotebook, "full".to_owned()))
    );
    assert_eq!(next_action(false, Action::CreateDest, Event::Done), Ok(Action::OpenDest));
    assert_eq!(next_action(false, Action::Finished, Event::Done), Ok(Action::Finished));
}

/// Whether copying the folder at the top copies the item at the end of a path.
fn copied(path: &[(&str, ItemKind)]) -> bool {
    let (last, above) = path.split_last().unwrap();
    above.iter().all(|i| copy_action_for(i.0, i.1, true) == CopyAction::Descend)
        && copy_action_for(last.0, last.1, false) != CopyAction::Skip
}

#[test]
fn trees_are_copied_without_caches() {
    let (dir, link, file) = (ItemKind::Folder, ItemKind::FolderLink, ItemKind::File);
    assert!(copied(&[("a", dir), ("b", dir), ("c.py", file)]));
    assert!(copied(&[("a", dir), ("__pycache__", file)]));
    assert!(copied(&[("a", dir), ("b", dir)]));
    assert!(!copied(&[("a", dir), ("__pycache__", dir)]));
    assert!(!copied(&[("a", dir), ("__marimo__", link)]));
    assert!(!copied(&[("a", dir), ("__pycache__", dir), ("c.pyc", file)]));
    assert!(!copied(&[("__marimo__", dir), ("b", dir), ("c.py", file)]));
    assert!(!copied(&[("a", link), ("c.py", file)]));
}

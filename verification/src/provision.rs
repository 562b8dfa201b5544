//! Putting a notebook, and the `utilities` folder beside it, where the user can
//! run it.
use crate::catalog::AppEntry;
use crate::paths;
use crate::paths::{copied, path_file_name, path_join, path_parent};
use crate::text;
use crate::text::lossy;
use vstd::prelude::*;
use vstd::string::*;

verus! {

/// What is copied from where to where.
#[derive(Debug)]
pub struct Plan {
    /// The name under which the notebook is run.
    pub file_name: Vec<u8>,
    pub notebook: Vec<u8>,
    pub dst_notebook: Vec<u8>,
    pub dest: Vec<u8>,
    /// The folder around the destination, which is opened to everybody too.
    pub notebooks_dir: Option<Vec<u8>>,
    pub utilities_src: Vec<u8>,
    pub utilities_dst: Vec<u8>,
}

/// What a plan says.
pub struct PlanModel {
    pub file_name: Seq<u8>,
    pub notebook: Seq<u8>,
    pub dst_notebook: Seq<u8>,
    pub dest: Seq<u8>,
    pub notebooks_dir: Option<Seq<u8>>,
    pub utilities_src: Seq<u8>,
    pub utilities_dst: Seq<u8>,
}

impl View for Plan {
    type V = PlanModel;

    open spec fn view(&self) -> PlanModel {
        PlanModel {
            file_name: self.file_name@,
            notebook: self.notebook@,
            dst_notebook: self.dst_notebook@,
            dest: self.dest@,
            notebooks_dir: match self.notebooks_dir {
                Some(folder) => Some(folder@),
                None => None,
            },
            utilities_src: self.utilities_src@,
            utilities_dst: self.utilities_dst@,
        }
    }
}

/// The plan for a notebook, or why there is none.
pub open spec fn plan(path: Seq<char>, dest: Seq<u8>) -> Result<PlanModel, Seq<char>> {
    let notebook = paths::bytes(path);
    let utilities = paths::bytes("utilities"@);
    match (paths::file_name(notebook), paths::parent(notebook)) {
        (Some(file_name), Some(folder)) => Ok(
            PlanModel {
                file_name,
                notebook,
                dst_notebook: paths::join(dest, file_name),
                dest,
                notebooks_dir: paths::parent(dest),
                utilities_src: paths::join(folder, utilities),
                utilities_dst: paths::join(dest, utilities),
            },
        ),
        (None, _) => Err("Invalid notebook path: "@ + path),
        (_, None) => Err("Cannot determine source folder for "@ + path),
    }
}

/// Plans how the notebook of `app` gets to the folder `dest`.
pub fn provision(app: &AppEntry, dest: &[u8]) -> (res: Result<Plan, String>)
    ensures
        match res {
            Ok(p) => plan(app@.path, dest@) == Ok::<PlanModel, Seq<char>>(p@),
            Err(e) => plan(app@.path, dest@) == Err::<PlanModel, Seq<char>>(e@),
        },
{
    let path = app.path.as_str();
    let notebook = path.as_bytes();
    let file_name = match path_file_name(notebook) {
        Some(name) => name,
        None => {
            return Err("Invalid notebook path: ".to_owned().concat(path));
        },
    };
    let folder = match path_parent(notebook) {
        Some(folder) => folder,
        None => {
            return Err("Cannot determine source folder for ".to_owned().concat(path));
        },
    };
    let dst_notebook = path_join(dest, file_name.as_slice());
    Ok(
        Plan {
            file_name,
            notebook: copied(notebook),
            dst_notebook,
            dest: copied(dest),
            notebooks_dir: path_parent(dest),
            utilities_src: path_join(folder.as_slice(), "utilities".as_bytes()),
            utilities_dst: path_join(dest, "utilities".as_bytes()),
        },
    )
}

/// The steps of a plan that can fail.
#[derive(Debug, Clone, Copy, PartialEq, Eq, Structural)]
pub enum Step {
    CreateDest,
    OpenDest,
    CopyNotebook,
    CopyUtilities,
}

/// What is said when a step fails.
pub open spec fn failure(
    step: Step,
    source: Seq<char>,
    target: Seq<char>,
    reason: Seq<char>,
) -> Seq<char> {
    match step {
        Step::CreateDest => "create "@ + target + ": "@ + reason,
        Step::OpenDest => "chmod 777 "@ + target + ": "@ + reason,
        Step::CopyNotebook | Step::CopyUtilities => "copy "@ + source + " -> "@ + target + ": "@
            + reason,
    }
}

/// What is said when a step fails. `source` is what is copied, and `target` is
/// what is made.
pub fn step_message(step: Step, source: &str, target: &str, reason: &str) -> (res: String)
    ensures
        res@ == failure(step, source@, target@, reason@),
{
    match step {
        Step::CreateDest => "create ".to_owned().concat(target).concat(": ").concat(reason),
        Step::OpenDest => "chmod 777 ".to_owned().concat(target).concat(": ").concat(reason),
        Step::CopyNotebook | Step::CopyUtilities => "copy ".to_owned().concat(source).concat(
            " -> ",
        ).concat(target).concat(": ").concat(reason),
    }
}

impl PlanModel {
    /// What a step copies.
    pub open spec fn source(self, step: Step) -> Seq<u8> {
        match step {
            Step::CopyUtilities => self.utilities_src,
            _ => self.notebook,
        }
    }

    /// What a step makes.
    pub open spec fn target(self, step: Step) -> Seq<u8> {
        match step {
            Step::CreateDest | Step::OpenDest => self.dest,
            Step::CopyNotebook => self.dst_notebook,
            Step::CopyUtilities => self.utilities_dst,
        }
    }
}

impl Plan {
    /// What is said when a step fails.
    pub fn step_failed(&self, step: Step, reason: &str) -> (res: String)
        ensures
            res@ == failure(
                step,
                text::lossy_utf8(self@.source(step)),
                text::lossy_utf8(self@.target(step)),
                reason@,
            ),
    {
        let (source, target) = match step {
            Step::CreateDest => (&self.notebook, &self.dest),
            Step::OpenDest => (&self.notebook, &self.dest),
            Step::CopyNotebook => (&self.notebook, &self.dst_notebook),
            Step::CopyUtilities => (&self.utilities_src, &self.utilities_dst),
        };
        step_message(
            step,
            lossy(source.as_slice()).as_str(),
            lossy(target.as_slice()).as_str(),
            reason,
        )
    }
}

// ------------------------------------------------------- carrying out a plan

/// What is done for a plan, one at a time.
#[derive(Debug, Clone, Copy, PartialEq, Eq, Structural)]
pub enum Action {
    /// Create the destination, where it is missing.
    CreateDest,
    /// Open the folder around the destination to everybody. It may belong to
    /// somebody else, and then it stays as it is.
    OpenNotebooks,
    /// Open the destination to everybody.
    OpenDest,
    /// Is there a notebook at the destination?
    FindNotebook,
    /// Remove the notebook at the destination, if that is possible.
    RemoveNotebook,
    CopyNotebook,
    /// Is there a `utilities` folder beside the notebook?
    FindUtilities,
    CopyUtilities,
    /// Open everything in the destination to everybody, as far as possible.
    OpenAll,
    /// There is nothing left to do.
    Finished,
}

/// What came of an action.
#[derive(Debug)]
pub enum Event {
    Done,
    /// What was looked for is there, or not.
    Found(bool),
    Failed(String),
}

/// What came of an action.
pub enum EventModel {
    Done,
    Found(bool),
    Failed(Seq<char>),
}

impl View for Event {
    type V = EventModel;

    open spec fn view(&self) -> EventModel {
        match self {
            Event::Done => EventModel::Done,
            Event::Found(there) => EventModel::Found(*there),
            Event::Failed(reason) => EventModel::Failed(reason@),
        }
    }
}

/// The step that an action is, where its failure ends the provisioning.
pub open spec fn step_of(action: Action) -> Option<Step> {
    match action {
        Action::CreateDest => Some(Step::CreateDest),
        Action::OpenDest => Some(Step::OpenDest),
        Action::CopyNotebook => Some(Step::CopyNotebook),
        Action::CopyUtilities => Some(Step::CopyUtilities),
        _ => None,
    }
}

/// What follows an action that did not end the provisioning. `has_parent` says
/// whether there is a folder around the destination.
pub open spec fn following(has_parent: bool, action: Action, found: bool) -> Action {
    match action {
        Action::CreateDest => if has_parent {
            Action::OpenNotebooks
        } else {
            Action::OpenDest
        },
        Action::OpenNotebooks => Action::OpenDest,
        Action::OpenDest => Action::FindNotebook,
        Action::FindNotebook => if found {
            Action::RemoveNotebook
        } else {
            Action::CopyNotebook
        },
        Action::RemoveNotebook => Action::CopyNotebook,
        Action::CopyNotebook => Action::FindUtilities,
        Action::FindUtilities => if found {
            Action::CopyUtilities
        } else {
            Action::OpenAll
        },
        Action::CopyUtilities => Action::OpenAll,
        Action::OpenAll | Action::Finished => Action::Finished,
    }
}

/// The next action, or the step that failed and why.
pub open spec fn next_step(has_parent: bool, action: Action, event: EventModel) -> Result<
    Action,
    (Step, Seq<char>),
> {
    match (step_of(action), event) {
        (Some(step), EventModel::Failed(reason)) => Err((step, reason)),
        _ => Ok(following(has_parent, action, event == EventModel::Found(true))),
    }
}

/// Says what to do after `action`, from what came of it: the next action, or
/// the step that failed and why. A plan begins with `CreateDest`.
pub fn next_action(has_parent: bool, action: Action, event: Event) -> (res: Result<
    Action,
    (Step, String),
>)
    ensures
        match res {
            Ok(next) => next_step(has_parent, action, event@) == Ok::<Action, (Step, Seq<char>)>(
                next,
            ),
            Err((step, reason)) => next_step(has_parent, action, event@) == Err::<
                Action,
                (Step, Seq<char>),
            >((step, reason@)),
        },
{
    let found = match event {
        Event::Found(there) => there,
        Event::Failed(reason) => match action {
            Action::CreateDest => {
                return Err((Step::CreateDest, reason));
            },
            Action::OpenDest => {
                return Err((Step::OpenDest, reason));
            },
            Action::CopyNotebook => {
                return Err((Step::CopyNotebook, reason));
            },
            Action::CopyUtilities => {
                return Err((Step::CopyUtilities, reason));
            },
            _ => false,
        },
        Event::Done => false,
    };
    let next = match action {
        Action::CreateDest => if has_parent {
            Action::OpenNotebooks
        } else {
            Action::OpenDest
        },
        Action::OpenNotebooks => Action::OpenDest,
        Action::OpenDest => Action::FindNotebook,
        Action::FindNotebook => if found {
            Action::RemoveNotebook
        } else {
            Action::CopyNotebook
        },
        Action::RemoveNotebook => Action::CopyNotebook,
        Action::CopyNotebook => Action::FindUtilities,
        Action::FindUtilities => if found {
            Action::CopyUtilities
        } else {
            Action::OpenAll
        },
        Action::CopyUtilities => Action::OpenAll,
        Action::OpenAll | Action::Finished => Action::Finished,
    };
    Ok(next)
}

impl Plan {
    /// Says what to do after `action`, from what came of it: the next action,
    /// or what to tell the user.
    pub fn advance(&self, action: Action, event: Event) -> (res: Result<Action, String>)
        ensures
            match next_step(self@.notebooks_dir is Some, action, event@) {
                Ok(next) => res == Ok::<Action, String>(next),
                Err((step, reason)) => res is Err && res->Err_0@ == failure(
                    step,
                    text::lossy_utf8(self@.source(step)),
                    text::lossy_utf8(self@.target(step)),
                    reason,
                ),
            },
    {
        match next_action(self.notebooks_dir.is_some(), action, event) {
            Ok(next) => Ok(next),
            Err((step, reason)) => Err(self.step_failed(step, reason.as_str())),
        }
    }
}

// ------------------------------------------------------------ copying a folder

/// What an item of a folder is.
#[derive(Debug, Clone, Copy, PartialEq, Eq, Structural)]
pub enum ItemKind {
    Folder,
    /// A link to a folder.
    FolderLink,
    /// Anything else.
    File,
}

/// What happens to an item of a folder that is copied.
#[derive(Debug, Clone, Copy, PartialEq, Eq, Structural)]
pub enum CopyAction {
    /// Nothing.
    Skip,
    /// The folder is copied in its turn.
    Descend,
    /// The file is copied.
    Copy,
    /// The file is copied over one that is removed first.
    Replace,
}

/// The names of cache folders.
pub open spec fn is_cache(name: Seq<char>) -> bool {
    name == "__pycache__"@ || name == "__marimo__"@
}

/// What happens to the item `name`: a cache folder is never copied, and neither
/// is a link to one.
pub open spec fn copy_step(name: Seq<char>, kind: ItemKind, dst_exists: bool) -> CopyAction {
    if kind != ItemKind::File && is_cache(name) {
        CopyAction::Skip
    } else if kind == ItemKind::Folder {
        CopyAction::Descend
    } else if dst_exists {
        CopyAction::Replace
    } else {
        CopyAction::Copy
    }
}

/// What happens to the item `name` of a folder that is copied. `dst_exists`
/// says whether there is something at its destination.
pub fn copy_action(name: &[u8], kind: ItemKind, dst_exists: bool) -> (res: CopyAction)
    ensures
        res == copy_step(text::lossy_utf8(name@), kind, dst_exists),
{
    copy_action_for(lossy(name).as_str(), kind, dst_exists)
}

/// What happens to the item whose name shows as `name`.
pub fn copy_action_for(name: &str, kind: ItemKind, dst_exists: bool) -> (res: CopyAction)
    ensures
        res == copy_step(name@, kind, dst_exists),
{
    let own = name.to_owned();
    let cache = own == "__pycache__".to_owned() || own == "__marimo__".to_owned();
    if kind != ItemKind::File && cache {
        CopyAction::Skip
    } else if kind == ItemKind::Folder {
        CopyAction::Descend
    } else if dst_exists {
        CopyAction::Replace
    } else {
        CopyAction::Copy
    }
}

// ------------------------------------------------------------------------ laws

/// The one way in which a plan fails is a path without a file name.
pub proof fn plan_fails_for_bad_names_only(path: Seq<char>, dest: Seq<u8>)
    ensures
        plan(path, dest) is Ok <==> paths::file_name(paths::bytes(path)) is Some,
        plan(path, dest) is Err ==> plan(path, dest)->Err_0 == "Invalid notebook path: "@ + path,
{
    if paths::file_name(paths::bytes(path)) is Some {
        paths::named_path_has_parent(paths::bytes(path));
    }
}

/// The notebook keeps its name, and lands in the destination.
pub proof fn notebook_keeps_its_name(path: Seq<char>, dest: Seq<u8>)
    requires
        plan(path, dest) is Ok,
    ensures
        plan(path, dest)->Ok_0.file_name == paths::file_name(paths::bytes(path))->0,
        paths::file_name(plan(path, dest)->Ok_0.dst_notebook) == Some(
            plan(path, dest)->Ok_0.file_name,
        ),
        paths::parent(plan(path, dest)->Ok_0.dst_notebook) == Some(paths::without_tail(dest)),
{
    let name = plan(path, dest)->Ok_0.file_name;
    paths::file_name_has_no_slash(paths::bytes(path));
    paths::joined_name_is_found(dest, name);
}

/// How far the provisioning is.
pub open spec fn progress(action: Action) -> nat {
    match action {
        Action::CreateDest => 0,
        Action::OpenNotebooks => 1,
        Action::OpenDest => 2,
        Action::FindNotebook => 3,
        Action::RemoveNotebook => 4,
        Action::CopyNotebook => 5,
        Action::FindUtilities => 6,
        Action::CopyUtilities => 7,
        Action::OpenAll => 8,
        Action::Finished => 9,
    }
}

/// Provisioning never goes back, so it comes to an end.
pub proof fn provisioning_goes_on(has_parent: bool, action: Action, event: EventModel)
    requires
        action != Action::Finished,
    ensures
        next_step(has_parent, action, event) matches Ok(next) ==> progress(next) > progress(action),
{
}

/// What comes of provisioning from `action` on, where `events` says what comes
/// of each action.
pub open spec fn outcome(
    has_parent: bool,
    action: Action,
    events: spec_fn(Action) -> EventModel,
) -> Result<(), (Step, Seq<char>)>
    decreases 9 - progress(action),
{
    if action == Action::Finished {
        Ok(())
    } else {
        match next_step(has_parent, action, events(action)) {
            Ok(next) => outcome(has_parent, next, events),
            Err(e) => Err(e),
        }
    }
}

/// The reason why an action failed, if it did.
pub open spec fn failed(event: EventModel) -> Option<Seq<char>> {
    match event {
        EventModel::Failed(reason) => Some(reason),
        _ => None,
    }
}

/// Provisioning fails where creating or opening the destination, copying the
/// notebook, or copying a `utilities` folder that is there fails, and with the
/// first of these; nothing else makes it fail.
pub proof fn first_failed_step_counts(has_parent: bool, events: spec_fn(Action) -> EventModel)
    ensures
        outcome(has_parent, Action::CreateDest, events) == (if let Some(e) = failed(
            events(Action::CreateDest),
        ) {
            Err((Step::CreateDest, e))
        } else if let Some(e) = failed(events(Action::OpenDest)) {
            Err((Step::OpenDest, e))
        } else if let Some(e) = failed(events(Action::CopyNotebook)) {
            Err((Step::CopyNotebook, e))
        } else if events(Action::FindUtilities) == EventModel::Found(true) && failed(
            events(Action::CopyUtilities),
        ) is Some {
            Err((Step::CopyUtilities, failed(events(Action::CopyUtilities))->0))
        } else {
            Ok::<(), (Step, Seq<char>)>(())
        }),
{
    reveal_with_fuel(outcome, 10);
}

/// Of an item in a folder that is copied: cache folders are skipped, and
/// nothing else is, not even a file that is named like one.
pub proof fn cache_folders_are_not_copied(name: Seq<char>, kind: ItemKind, dst_exists: bool)
    ensures
        copy_step(name, kind, dst_exists) == CopyAction::Skip <==> kind != ItemKind::File
            && is_cache(name),
{
}

/// An item below a folder that is copied, as the items on the way to it from
/// the top, itself the last: their names and what they are.
pub type ItemPath = Seq<(Seq<char>, ItemKind)>;

/// What happens to the item at depth `i` of a path, where the copying gets to
/// it. `dst_exists` says at which depths there is something at the destination.
pub open spec fn step_at(path: ItemPath, dst_exists: spec_fn(int) -> bool, i: int) -> CopyAction {
    copy_step(path[i].0, path[i].1, dst_exists(i))
}

/// Copying the folder at the top gets to the item and copies it: it descends
/// into everything above, and does not skip the item itself.
pub open spec fn is_copied(path: ItemPath, dst_exists: spec_fn(int) -> bool) -> bool {
    &&& path.len() > 0
    &&& forall|i: int|
        0 <= i < path.len() - 1 ==> #[trigger] step_at(path, dst_exists, i) == CopyAction::Descend
    &&& step_at(path, dst_exists, path.len() - 1) != CopyAction::Skip
}

/// Of a whole tree: an item is copied exactly where neither it nor anything
/// above it is a cache folder, or a link to one.
pub proof fn tree_is_copied_without_caches(path: ItemPath, dst_exists: spec_fn(int) -> bool)
    requires
        path.len() > 0,
        forall|i: int| 0 <= i < path.len() - 1 ==> (#[trigger] path[i]).1 == ItemKind::Folder,
    ensures
        is_copied(path, dst_exists) <==> forall|i: int|
            0 <= i < path.len() && (#[trigger] path[i]).1 != ItemKind::File ==> !is_cache(
                path[i].0,
            ),
{
    if is_copied(path, dst_exists) {
        assert forall|i: int|
            0 <= i < path.len() && (#[trigger] path[i]).1 != ItemKind::File implies !is_cache(
            path[i].0,
        ) by {
            if i < path.len() - 1 {
                assert(step_at(path, dst_exists, i) == CopyAction::Descend);
            }
        }
    }
}

/// Nothing is copied from below a cache folder, a link or a file.
pub proof fn nothing_below_is_copied(path: ItemPath, dst_exists: spec_fn(int) -> bool, i: int)
    requires
        0 <= i < path.len() - 1,
        path[i].1 != ItemKind::Folder || is_cache(path[i].0),
    ensures
        !is_copied(path, dst_exists),
{
    assert(step_at(path, dst_exists, i) != CopyAction::Descend);
}

/// What happens to an item, by its name, what it is, and what is at its
/// destination.
pub proof fn items_are_skipped_descended_or_copied(name: Seq<char>, dst_exists: bool)
    ensures
        copy_step("__pycache__"@, ItemKind::Folder, dst_exists) == CopyAction::Skip,
        copy_step("__marimo__"@, ItemKind::Folder, dst_exists) == CopyAction::Skip,
        copy_step("__pycache__"@, ItemKind::FolderLink, dst_exists) == CopyAction::Skip,
        copy_step("__marimo__"@, ItemKind::FolderLink, dst_exists) == CopyAction::Skip,
        copy_step(name, ItemKind::File, true) == CopyAction::Replace,
        copy_step(name, ItemKind::File, false) == CopyAction::Copy,
        name != "__pycache__"@ && name != "__marimo__"@ ==> {
            &&& copy_step(name, ItemKind::Folder, dst_exists) == CopyAction::Descend
            &&& copy_step(name, ItemKind::FolderLink, true) == CopyAction::Replace
            &&& copy_step(name, ItemKind::FolderLink, false) == CopyAction::Copy
        },
{
}

/// A notebook with a name goes under that name into the destination, and the
/// `utilities` folder beside it goes there too; the folder around the
/// destination is the one that is opened.
pub proof fn plan_says_what_goes_where(path: Seq<char>, dest: Seq<u8>)
    ensures
        plan(path, dest) matches Ok(p) ==> {
            let own = paths::bytes(path);
            &&& p.notebook == own
            &&& p.dest == dest
            &&& Some(p.file_name) == paths::file_name(own)
            &&& p.dst_notebook == paths::join(dest, p.file_name)
            &&& p.notebooks_dir == paths::parent(dest)
            &&& p.utilities_src == paths::join(paths::parent(own)->0, paths::bytes("utilities"@))
            &&& p.utilities_dst == paths::join(dest, paths::bytes("utilities"@))
        },
        paths::file_name(paths::bytes(path)) is Some ==> plan(path, dest) is Ok,
        paths::file_name(paths::bytes(path)) is None ==> plan(path, dest) == Err::<
            PlanModel,
            Seq<char>,
        >("Invalid notebook path: "@ + path),
{
    plan_fails_for_bad_names_only(path, dest);
}

/// What is said of a failed step names what was made, what was copied, and why
/// it failed.
pub proof fn failures_name_what_was_done(p: PlanModel, a: Seq<char>, b: Seq<char>, why: Seq<char>)
    ensures
        failure(Step::CreateDest, a, b, why) == "create "@ + b + ": "@ + why,
        failure(Step::OpenDest, a, b, why) == "chmod 777 "@ + b + ": "@ + why,
        failure(Step::CopyNotebook, a, b, why) == "copy "@ + a + " -> "@ + b + ": "@ + why,
        failure(Step::CopyUtilities, a, b, why) == "copy "@ + a + " -> "@ + b + ": "@ + why,
        p.target(Step::CreateDest) == p.dest,
        p.target(Step::OpenDest) == p.dest,
        p.source(Step::CopyNotebook) == p.notebook,
        p.target(Step::CopyNotebook) == p.dst_notebook,
        p.source(Step::CopyUtilities) == p.utilities_src,
        p.target(Step::CopyUtilities) == p.utilities_dst,
{
}

/// The actions that are taken from `action` on, where `events` says what comes
/// of each.
pub open spec fn taken(
    has_parent: bool,
    action: Action,
    events: spec_fn(Action) -> EventModel,
) -> Seq<Action>
    decreases 9 - progress(action),
{
    if action == Action::Finished {
        Seq::empty()
    } else {
        seq![action] + match next_step(has_parent, action, events(action)) {
            Ok(next) => taken(has_parent, next, events),
            Err(_) => Seq::empty(),
        }
    }
}

/// Where nothing essential fails, the destination is created and opened, then
/// the notebook is copied, over one that is removed first, then `utilities` is
/// copied where it is there, and at last everything is opened.
pub proof fn provisioning_takes_these_actions(
    has_parent: bool,
    events: spec_fn(Action) -> EventModel,
)
    requires
        outcome(has_parent, Action::CreateDest, events) is Ok,
    ensures
        ({
            let old_one = events(Action::FindNotebook) == EventModel::Found(true);
            let utilities = events(Action::FindUtilities) == EventModel::Found(true);
            taken(has_parent, Action::CreateDest, events) == seq![Action::CreateDest] + (
            if has_parent {
                seq![Action::OpenNotebooks]
            } else {
                Seq::empty()
            }) + seq![Action::OpenDest, Action::FindNotebook] + (if old_one {
                seq![Action::RemoveNotebook]
            } else {
                Seq::empty()
            }) + seq![Action::CopyNotebook, Action::FindUtilities] + (if utilities {
                seq![Action::CopyUtilities]
            } else {
                Seq::empty()
            }) + seq![Action::OpenAll]
        }),
{
    first_failed_step_counts(has_parent, events);
    let none = Seq::<Action>::empty();
    let old_one = events(Action::FindNotebook) == EventModel::Found(true);
    let utilities = events(Action::FindUtilities) == EventModel::Found(true);
    let last = seq![Action::OpenAll];
    assert(taken(has_parent, Action::Finished, events) == none);
    assert(taken(has_parent, Action::OpenAll, events) =~= last);
    let some = if utilities {
        seq![Action::CopyUtilities]
    } else {
        none
    };
    assert(taken(has_parent, Action::FindUtilities, events) =~= seq![Action::FindUtilities] + some
        + last) by {
        if utilities {
            assert(taken(has_parent, Action::CopyUtilities, events) =~= some + last);
        }
    }
    let copy = seq![Action::CopyNotebook, Action::FindUtilities] + some + last;
    assert(taken(has_parent, Action::CopyNotebook, events) =~= copy);
    let gone = if old_one {
        seq![Action::RemoveNotebook]
    } else {
        none
    };
    assert(taken(has_parent, Action::FindNotebook, events) =~= seq![Action::FindNotebook] + gone
        + copy) by {
        if old_one {
            assert(taken(has_parent, Action::RemoveNotebook, events) =~= gone + copy);
        }
    }
    let open = seq![Action::OpenDest, Action::FindNotebook] + gone + copy;
    assert(taken(has_parent, Action::OpenDest, events) =~= open);
    let around = if has_parent {
        seq![Action::OpenNotebooks]
    } else {
        none
    };
    assert(taken(has_parent, Action::CreateDest, events) =~= seq![Action::CreateDest] + around
        + open) by {
        if has_parent {
            assert(taken(has_parent, Action::OpenNotebooks, events) =~= around + open);
        }
    }
    assert(seq![Action::CreateDest] + around + open =~= seq![Action::CreateDest] + around + seq![
        Action::OpenDest,
        Action::FindNotebook,
    ] + gone + seq![Action::CopyNotebook, Action::FindUtilities] + some + last);
}

/// What follows each action: a failure ends the provisioning where it is of an
/// essential step, and whatever else comes of an action leads to the next one.
pub proof fn each_action_leads_to_the_next(has_parent: bool, event: EventModel, why: Seq<char>)
    ensures
        ({
            let bad = EventModel::Failed(why);
            &&& next_step(has_parent, Action::CreateDest, bad) == Err::<Action, (Step, Seq<char>)>(
                (Step::CreateDest, why),
            )
            &&& next_step(has_parent, Action::OpenDest, bad) == Err::<Action, (Step, Seq<char>)>(
                (Step::OpenDest, why),
            )
            &&& next_step(has_parent, Action::CopyNotebook, bad) == Err::<
                Action,
                (Step, Seq<char>),
            >((Step::CopyNotebook, why))
            &&& next_step(has_parent, Action::CopyUtilities, bad) == Err::<
                Action,
                (Step, Seq<char>),
            >((Step::CopyUtilities, why))
        }),
        !(event is Failed) ==> {
            let ok = |a: Action, b: Action|
                next_step(has_parent, a, event) == Ok::<Action, (Step, Seq<char>)>(b);
            &&& has_parent ==> ok(Action::CreateDest, Action::OpenNotebooks)
            &&& !has_parent ==> ok(Action::CreateDest, Action::OpenDest)
            &&& ok(Action::OpenDest, Action::FindNotebook)
            &&& ok(Action::CopyNotebook, Action::FindUtilities)
            &&& ok(Action::CopyUtilities, Action::OpenAll)
        },
        ({
            let ok = |a: Action, b: Action|
                next_step(has_parent, a, event) == Ok::<Action, (Step, Seq<char>)>(b);
            &&& ok(Action::OpenNotebooks, Action::OpenDest)
            &&& ok(Action::RemoveNotebook, Action::CopyNotebook)
            &&& ok(Action::OpenAll, Action::Finished)
            &&& ok(Action::Finished, Action::Finished)
            &&& event == EventModel::Found(true) ==> ok(
                Action::FindNotebook,
                Action::RemoveNotebook,
            )
            &&& event != EventModel::Found(true) ==> ok(Action::FindNotebook, Action::CopyNotebook)
            &&& event == EventModel::Found(true) ==> ok(
                Action::FindUtilities,
                Action::CopyUtilities,
            )
            &&& event != EventModel::Found(true) ==> ok(Action::FindUtilities, Action::OpenAll)
        }),
{
}

/// Plans and events are what they hold.
pub proof fn plans_hold_their_fields(p: Plan, e: Event)
    ensures
        p@.file_name == p.file_name@,
        p@.notebook == p.notebook@,
        p@.dst_notebook == p.dst_notebook@,
        p@.dest == p.dest@,
        p.notebooks_dir is None <==> p@.notebooks_dir is None,
        p.notebooks_dir matches Some(folder) ==> p@.notebooks_dir == Some(folder@),
        p@.utilities_src == p.utilities_src@,
        p@.utilities_dst == p.utilities_dst@,
        match e {
            Event::Done => e@ == EventModel::Done,
            Event::Found(there) => e@ == EventModel::Found(there),
            Event::Failed(why) => e@ == EventModel::Failed(why@),
        },
{
}

} // verus!

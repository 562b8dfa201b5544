//! The state of the portal, and what the user and the running programs do to
//! it.
//!
//! The user picks an instrument, an application and an IPTS, and launches the
//! application there. Beside this runs at most one kill run of the browser
//! maintenance script, and at most one scan for a browser that is already
//! running.
use crate::browser;
use crate::browser::{kill_message, parse_kill_summary, scan_found_processes, FIX_BROWSER_SCRIPT};
use crate::catalog;
use crate::catalog::{AppEntry, AppModel};
use crate::command;
use crate::command::{Invocation, InvocationModel};
use crate::display;
use crate::display::{build_display, DisplayItem, RowModel};
use crate::instrument::Instrument;
use crate::ipts;
use crate::ipts::{destination_for, IptsEntry, IptsModel, IPTS_PREFIX};
use crate::notice;
use crate::notice::{Notice, Tone};
use crate::number;
use crate::number::{decimal_of, parse_u64};
use crate::paths;
use crate::paths::copied;
use crate::provision;
use crate::provision::{Plan, PlanModel};
use crate::text;
use crate::text::{chars_of, lossy, starts_with, text_of, trimmed};
use vstd::prelude::*;
use vstd::slice::slice_subrange;
use vstd::string::*;

verus! {

/// What the report window is about.
#[derive(Debug, Clone, Copy, PartialEq, Eq, Structural)]
pub enum ScanWindowKind {
    /// Firefox did not open: where is it already running?
    Scan,
    /// What did the kill run do?
    Kill,
}

/// The state of the portal.
#[derive(Debug)]
pub struct MyApp {
    applications: Vec<(String, AppEntry)>,
    /// The applications as they are listed.
    app_display: Vec<DisplayItem>,
    selected: Option<usize>,
    instrument: Instrument,
    ipts_entries: Vec<IptsEntry>,
    ipts_error: Option<String>,
    ipts_selected: Option<usize>,
    /// What the user has typed as an IPTS number.
    manual_ipts: String,
    manual_ipts_msg: Option<Notice>,
    /// Whether the list is to scroll to the selected IPTS.
    scroll_to_ipts: bool,
    /// Whether an application has been launched.
    launched: bool,
    launch_status: Option<Notice>,
    /// The picture to show, as a path.
    screenshot: Option<String>,
    /// The instrument whose logo was loaded last.
    logo_instrument: Option<Instrument>,
    cleanup_msg: Option<Notice>,
    cleanup_running: bool,
    scan_running: bool,
    scan_output: Option<String>,
    scan_window_open: bool,
    scan_window_kind: ScanWindowKind,
}

/// What the state of the portal is.
pub struct Portal {
    pub applications: Seq<(Seq<char>, AppModel)>,
    pub app_display: Seq<RowModel>,
    pub selected: Option<int>,
    pub instrument: Instrument,
    pub ipts_entries: Seq<IptsModel>,
    pub ipts_error: Option<Seq<char>>,
    pub ipts_selected: Option<int>,
    pub manual_ipts: Seq<char>,
    pub manual_ipts_msg: Option<(Seq<char>, Tone)>,
    pub scroll_to_ipts: bool,
    pub launched: bool,
    pub launch_status: Option<(Seq<char>, Tone)>,
    pub screenshot: Option<Seq<char>>,
    pub logo_instrument: Option<Instrument>,
    pub cleanup_msg: Option<(Seq<char>, Tone)>,
    pub cleanup_running: bool,
    pub scan_running: bool,
    pub scan_output: Option<Seq<char>>,
    pub scan_window_open: bool,
    pub scan_window_kind: ScanWindowKind,
}

/// A position, if there is one.
pub open spec fn position(i: Option<usize>) -> Option<int> {
    match i {
        Some(i) => Some(i as int),
        None => None,
    }
}

impl View for MyApp {
    type V = Portal;

    closed spec fn view(&self) -> Portal {
        Portal {
            applications: catalog::app_views(self.applications@),
            app_display: display::rows(self.app_display@),
            selected: position(self.selected),
            instrument: self.instrument,
            ipts_entries: ipts::entry_views(self.ipts_entries@),
            ipts_error: text::text_view(self.ipts_error),
            ipts_selected: position(self.ipts_selected),
            manual_ipts: self.manual_ipts@,
            manual_ipts_msg: notice::shown(self.manual_ipts_msg),
            scroll_to_ipts: self.scroll_to_ipts,
            launched: self.launched,
            launch_status: notice::shown(self.launch_status),
            screenshot: text::text_view(self.screenshot),
            logo_instrument: self.logo_instrument,
            cleanup_msg: notice::shown(self.cleanup_msg),
            cleanup_running: self.cleanup_running,
            scan_running: self.scan_running,
            scan_output: text::text_view(self.scan_output),
            scan_window_open: self.scan_window_open,
            scan_window_kind: self.scan_window_kind,
        }
    }
}

impl Portal {
    /// The application at `i` is for the selected instrument.
    pub open spec fn available(self, i: int) -> bool {
        self.applications[i].1.available(self.instrument.shown_name())
    }

    /// The picture of the selected application, if it has one.
    pub open spec fn picture(self) -> Option<Seq<char>> {
        match self.selected {
            Some(i) => if self.applications[i].1.screenshot.len() > 0 {
                Some(self.applications[i].1.screenshot)
            } else {
                None
            },
            None => None,
        }
    }

    /// What always holds, but for the selected application being for the
    /// selected instrument: the list shows the applications, selections point
    /// into their lists, the selected IPTS is writable, the picture is that of
    /// the selected application, and an open report window has a report.
    pub open spec fn is_sound(self) -> bool {
        &&& display::is_complete(self.applications, self.app_display)
        &&& (self.selected matches Some(i) ==> 0 <= i < self.applications.len())
        &&& (self.ipts_selected matches Some(i) ==> {
            &&& 0 <= i < self.ipts_entries.len()
            &&& self.ipts_entries[i].writable
        })
        &&& self.screenshot == self.picture()
        &&& (self.scan_window_open ==> self.scan_output is Some)
    }

    /// What always holds.
    pub open spec fn wf(self) -> bool {
        &&& self.is_sound()
        &&& (self.selected matches Some(i) ==> self.available(i))
    }
}

// ---------------------------------------------------------------- transitions

impl Portal {
    /// The list of IPTS is replaced. What was tied to the list before is
    /// cleared, and so is a selected application that is not for the selected
    /// instrument.
    pub open spec fn reloaded(self, listing: Result<Seq<IptsModel>, Seq<char>>) -> Portal {
        let kept = self.selected is Some && self.available(self.selected->0);
        Portal {
            selected: if kept {
                self.selected
            } else {
                None
            },
            screenshot: if kept || self.selected is None {
                self.screenshot
            } else {
                None
            },
            ipts_entries: match listing {
                Ok(list) => list,
                Err(_) => seq![],
            },
            ipts_error: match listing {
                Ok(_) => None,
                Err(e) => Some(e),
            },
            ipts_selected: None,
            manual_ipts: seq![],
            manual_ipts_msg: None,
            launch_status: None,
            ..self
        }
    }

    /// The state at the start.
    pub open spec fn initial(
        applications: Seq<(Seq<char>, AppModel)>,
        app_display: Seq<RowModel>,
        listing: Result<Seq<IptsModel>, Seq<char>>,
    ) -> Portal {
        Portal {
            applications,
            app_display,
            selected: None,
            instrument: Instrument::Venus,
            ipts_entries: match listing {
                Ok(list) => list,
                Err(_) => seq![],
            },
            ipts_error: match listing {
                Ok(_) => None,
                Err(e) => Some(e),
            },
            ipts_selected: None,
            manual_ipts: seq![],
            manual_ipts_msg: None,
            scroll_to_ipts: false,
            launched: false,
            launch_status: None,
            screenshot: None,
            logo_instrument: None,
            cleanup_msg: None,
            cleanup_running: false,
            scan_running: false,
            scan_output: None,
            scan_window_open: false,
            scan_window_kind: ScanWindowKind::Scan,
        }
    }

    /// The application at `i` is clicked.
    pub open spec fn app_clicked(self, i: int) -> Portal {
        if self.available(i) {
            let next = Portal { selected: Some(i), launch_status: None, ..self };
            Portal { screenshot: next.picture(), ..next }
        } else {
            self
        }
    }

    /// The IPTS at `i` is clicked.
    pub open spec fn ipts_clicked(self, i: int) -> Portal {
        if self.ipts_entries[i].writable {
            Portal {
                ipts_selected: Some(i),
                manual_ipts: behind_prefix(self.ipts_entries[i].label),
                manual_ipts_msg: None,
                launch_status: None,
                ..self
            }
        } else {
            self
        }
    }

    /// The user has typed `typed` as an IPTS number.
    pub open spec fn ipts_typed(self, typed: Seq<char>) -> Portal {
        let next = Portal { manual_ipts: typed, ..self };
        let wanted = text::trim(typed);
        let label = IPTS_PREFIX@ + wanted;
        if wanted.len() == 0 {
            Portal { manual_ipts_msg: None, ..next }
        } else if number::parsed_u64(wanted) is None {
            Portal { manual_ipts_msg: Some(("Enter digits only"@, Tone::Danger)), ..next }
        } else {
            match labelled(self.ipts_entries, label) {
                Some(i) => if self.ipts_entries[i].writable {
                    Portal {
                        ipts_selected: Some(i),
                        scroll_to_ipts: true,
                        manual_ipts_msg: None,
                        launch_status: None,
                        ..next
                    }
                } else {
                    Portal {
                        manual_ipts_msg: Some(
                            (label + " found but no write access"@, Tone::Warning),
                        ),
                        ..next
                    }
                },
                None => Portal {
                    manual_ipts_msg: Some((label + " not found"@, Tone::Danger)),
                    ..next
                },
            }
        }
    }

    /// A report is shown in the report window.
    pub open spec fn report_shown(self, report: Seq<char>, kind: ScanWindowKind) -> Portal {
        Portal {
            scan_output: Some(report),
            scan_window_open: true,
            scan_window_kind: kind,
            ..self
        }
    }

    /// The notebook is running. A browser on another machine is reported.
    pub open spec fn started(self, dest: Seq<char>, lock_report: Option<Seq<char>>) -> Portal {
        let next = Portal { launched: true, ..self };
        match lock_report {
            Some(report) => Portal {
                launch_status: Some((RUNNING_ELSEWHERE@, Tone::Danger)),
                ..next.report_shown(report, ScanWindowKind::Scan)
            },
            None => Portal {
                launch_status: Some(("Provisioned "@ + dest, Tone::Success)),
                ..next
            },
        }
    }

    /// The user asks for a kill run.
    pub open spec fn kill_asked(self, script_present: bool) -> Portal {
        if self.cleanup_running {
            self
        } else if !script_present {
            Portal {
                cleanup_msg: Some(("Missing script "@ + FIX_BROWSER_SCRIPT@, Tone::Danger)),
                ..self
            }
        } else {
            Portal {
                cleanup_running: true,
                cleanup_msg: Some(
                    (
                        "Killing stuck browser sessions on the analysis machines\u{2026}"@,
                        Tone::Warning,
                    ),
                ),
                ..self
            }
        }
    }

    /// The kill run has ended.
    pub open spec fn kill_ended(self) -> Portal {
        Portal { cleanup_running: false, ..self }
    }

    /// The report of a kill run is summed up and shown.
    pub open spec fn kill_finished(self, report: Seq<char>) -> Portal {
        Portal {
            cleanup_msg: Some(browser::kill_notice(browser::kill_summary(report))),
            ..self.report_shown(report, ScanWindowKind::Kill)
        }
    }

    /// The browser has failed.
    pub open spec fn scan_asked(
        self,
        why: Seq<char>,
        lock_report: Option<Seq<char>>,
        script_present: bool,
    ) -> Portal {
        if self.scan_running {
            self
        } else if let Some(report) = lock_report {
            Portal {
                launch_status: Some(
                    (
                        why
                            + " \u{2014} your browser is running on another machine (see the report window)"@,
                        Tone::Danger,
                    ),
                ),
                ..self.report_shown(report, ScanWindowKind::Scan)
            }
        } else if !script_present {
            Portal {
                launch_status: Some(
                    (
                        why + " \u{2014} your browser may be running on another analysis machine"@,
                        Tone::Danger,
                    ),
                ),
                ..self
            }
        } else {
            Portal {
                scan_running: true,
                launch_status: Some(
                    (
                        why
                            + " \u{2014} scanning the analysis machines for an already-running browser\u{2026}"@,
                        Tone::Warning,
                    ),
                ),
                ..self
            }
        }
    }

    /// The scan has reported, if it is running.
    pub open spec fn scan_polled(self, report: Option<Seq<char>>) -> Portal {
        if !self.scan_running {
            self
        } else if let Some(report) = report {
            let next = Portal { scan_running: false, scan_output: Some(report), ..self };
            if browser::lists_processes(report) {
                Portal {
                    scan_window_open: true,
                    scan_window_kind: ScanWindowKind::Scan,
                    launch_status: Some((RUNNING_ELSEWHERE@, Tone::Danger)),
                    ..next
                }
            } else {
                Portal {
                    launch_status: Some(
                        (
                            "Firefox failed, but no already-running browser was found on the analysis machines"@,
                            Tone::Warning,
                        ),
                    ),
                    ..next
                }
            }
        } else {
            self
        }
    }
}

/// The message about a browser on another machine.
pub const RUNNING_ELSEWHERE: &'static str =
    "Your browser is already running on another machine (see the report window)";

/// What stands behind the prefix of an IPTS label.
pub open spec fn behind_prefix(label: Seq<char>) -> Seq<char> {
    if text::begins(label, IPTS_PREFIX@) {
        label.skip(IPTS_PREFIX@.len() as int)
    } else {
        seq![]
    }
}

/// The first entry with the label.
pub open spec fn labelled(entries: Seq<IptsModel>, label: Seq<char>) -> Option<int>
    decreases entries.len(),
{
    if entries.len() == 0 {
        None
    } else if let Some(i) = labelled(entries.drop_last(), label) {
        Some(i)
    } else if entries.last().label == label {
        Some(entries.len() - 1)
    } else {
        None
    }
}

/// `labelled` is the first entry with the label.
pub proof fn lemma_labelled(entries: Seq<IptsModel>, label: Seq<char>)
    ensures
        match labelled(entries, label) {
            Some(i) => {
                &&& 0 <= i < entries.len()
                &&& entries[i].label == label
                &&& forall|j: int| 0 <= j < i ==> (#[trigger] entries[j]).label != label
            },
            None => forall|j: int| 0 <= j < entries.len() ==> (#[trigger] entries[j]).label
                != label,
        },
    decreases entries.len(),
{
    if entries.len() > 0 {
        let rest = entries.drop_last();
        lemma_labelled(rest, label);
        assert forall|j: int| 0 <= j < rest.len() implies (#[trigger] entries[j]) == rest[j] by {}
    }
}

/// The IPTS list, or why there is none.
pub open spec fn listing_view(listing: Result<Vec<IptsEntry>, String>) -> Result<
    Seq<IptsModel>,
    Seq<char>,
> {
    match listing {
        Ok(list) => Ok(ipts::entry_views(list@)),
        Err(e) => Err(e@),
    }
}

fn find_labelled(entries: &Vec<IptsEntry>, label: &String) -> (res: Option<usize>)
    ensures
        position(res) == labelled(ipts::entry_views(entries@), label@),
        res matches Some(i) ==> i < entries@.len(),
{
    let n: usize = entries.len();
    let ghost all = ipts::entry_views(entries@);
    let mut res: Option<usize> = None;
    assert(labelled(all.take(0), label@) is None);
    for i in 0..n
        invariant
            n == entries@.len(),
            all == ipts::entry_views(entries@),
            position(res) == labelled(all.take(i as int), label@),
            res matches Some(k) ==> k < n,
    {
        proof {
            assert(all.take(i + 1).drop_last() == all.take(i as int));
            assert(all[i as int] == entries@[i as int]@);
        }
        if res.is_none() && entries[i].label == *label {
            res = Some(i);
        }
    }
    assert(all.take(n as int) == all);
    res
}

/// What a launch needs: the copies to make, and the program that runs the
/// notebook.
#[derive(Debug)]
pub struct LaunchOrder {
    pub plan: Plan,
    pub marimo: String,
}

/// The variable that limits how much a notebook may output, and its value: the
/// limit that holds without it is too small for the notebooks' branding.
pub const OUTPUT_LIMIT_VARIABLE: &'static str = "MARIMO_OUTPUT_MAX_BYTES";

pub const OUTPUT_LIMIT: &'static str = "20000000";

/// The program that runs a notebook in its folder, without a window.
pub open spec fn run_command(plan: PlanModel, marimo: Seq<char>) -> InvocationModel {
    InvocationModel {
        program: marimo,
        args: seq![paths::bytes("run"@), plan.file_name, paths::bytes("--headless"@)],
        variable: Some((OUTPUT_LIMIT_VARIABLE@, OUTPUT_LIMIT@)),
        folder: Some(plan.dest),
    }
}

impl LaunchOrder {
    /// The program to run.
    pub fn command(&self) -> (res: Invocation)
        ensures
            res@ == run_command(self.plan@, self.marimo@),
    {
        let mut args: Vec<Vec<u8>> = Vec::new();
        args.push(copied("run".as_bytes()));
        args.push(copied(self.plan.file_name.as_slice()));
        args.push(copied("--headless".as_bytes()));
        assert(command::arg_views(args@) =~= run_command(self.plan@, self.marimo@).args);
        Invocation {
            program: self.marimo.clone(),
            args,
            variable: Some((OUTPUT_LIMIT_VARIABLE.to_owned(), OUTPUT_LIMIT.to_owned())),
            folder: Some(copied(self.plan.dest.as_slice())),
        }
    }
}

/// What the button in the middle offers.
#[derive(Debug, Clone, Copy, PartialEq, Eq, Structural)]
pub enum LaunchButton {
    /// An application was launched a moment ago.
    Launching,
    /// The selected application can be launched.
    Ready,
    /// Something is still to be selected.
    Incomplete,
}

impl LaunchButton {
    /// What the button says.
    pub fn label(self) -> (res: &'static str)
        ensures
            self == LaunchButton::Launching ==> res@ == "\u{231b} Launching\u{2026}"@,
            self == LaunchButton::Ready ==> res@ == "Launch Application"@,
            self == LaunchButton::Incomplete ==> res@ == "Select an IPTS and an Application"@,
    {
        match self {
            LaunchButton::Launching => "\u{231b} Launching\u{2026}",
            LaunchButton::Ready => "Launch Application",
            LaunchButton::Incomplete => "Select an IPTS and an Application",
        }
    }
}

/// For how many seconds the button says that it is launching.
pub const LAUNCHING_SECONDS: u64 = 5;

impl MyApp {
    /// The portal at the start: VENUS, with nothing selected. `listing` is the
    /// list of IPTS of VENUS.
    pub fn new(
        applications: Vec<(String, AppEntry)>,
        listing: Result<Vec<IptsEntry>, String>,
    ) -> (res: MyApp)
        ensures
            res@.wf(),
            res@ == Portal::initial(
                catalog::app_views(applications@),
                res@.app_display,
                listing_view(listing),
            ),
            display::in_order(
                display::lower_keys(catalog::app_views(applications@)),
                res@.app_display,
            ),
    {
        let app_display = build_display(&applications);
        let mut app = MyApp {
            applications,
            app_display,
            selected: None,
            instrument: Instrument::Venus,
            ipts_entries: Vec::new(),
            ipts_error: None,
            ipts_selected: None,
            manual_ipts: String::new(),
            manual_ipts_msg: None,
            scroll_to_ipts: false,
            launched: false,
            launch_status: None,
            screenshot: None,
            logo_instrument: None,
            cleanup_msg: None,
            cleanup_running: false,
            scan_running: false,
            scan_output: None,
            scan_window_open: false,
            scan_window_kind: ScanWindowKind::Scan,
        };
        app.reload_ipts(listing);
        app
    }

    /// Replaces the list of IPTS by that of the selected instrument, and
    /// clears what was tied to the one before.
    pub fn reload_ipts(&mut self, listing: Result<Vec<IptsEntry>, String>)
        requires
            old(self)@.is_sound(),
        ensures
            final(self)@ == old(self)@.reloaded(listing_view(listing)),
            final(self)@.wf(),
    {
        if let Some(i) = self.selected {
            if !self.app_available(i) {
                self.selected = None;
                self.screenshot = None;
            }
        }
        match listing {
            Ok(list) => {
                self.ipts_entries = list;
                self.ipts_error = None;
            },
            Err(e) => {
                self.ipts_entries = Vec::new();
                self.ipts_error = Some(e);
                assert(self@.ipts_entries =~= seq![]);
            },
        }
        self.ipts_selected = None;
        self.manual_ipts = String::new();
        self.manual_ipts_msg = None;
        self.launch_status = None;
    }

    /// Selects another instrument. `listing` is its list of IPTS. Selecting
    /// the same one again changes nothing.
    pub fn select_instrument(
        &mut self,
        instrument: Instrument,
        listing: Result<Vec<IptsEntry>, String>,
    )
        requires
            old(self)@.wf(),
        ensures
            final(self)@ == (if instrument == old(self)@.instrument {
                old(self)@
            } else {
                (Portal { instrument, ..old(self)@ }).reloaded(listing_view(listing))
            }),
            final(self)@.wf(),
    {
        if self.instrument != instrument {
            self.instrument = instrument;
            self.reload_ipts(listing);
        }
    }

    /// Whether the application at `idx` is for the selected instrument.
    pub fn app_available(&self, idx: usize) -> (res: bool)
        requires
            idx < self@.applications.len(),
        ensures
            res == self@.available(idx as int),
    {
        self.applications[idx].1.available_at(self.instrument.name())
    }

    /// The user clicks the application at `idx`. One that is not for the
    /// selected instrument cannot be selected.
    pub fn click_app(&mut self, idx: usize)
        requires
            old(self)@.wf(),
            idx < old(self)@.applications.len(),
        ensures
            final(self)@ == old(self)@.app_clicked(idx as int),
            final(self)@.wf(),
    {
        if !self.app_available(idx) {
            return;
        }
        self.selected = Some(idx);
        self.launch_status = None;
        let path = self.applications[idx].1.screenshot.clone();
        if path.as_str().is_empty() {
            self.screenshot = None;
        } else {
            self.screenshot = Some(path);
        }
    }

    /// The user clicks the IPTS at `idx`. One without write access cannot be
    /// selected.
    pub fn click_ipts(&mut self, idx: usize)
        requires
            old(self)@.wf(),
            idx < old(self)@.ipts_entries.len(),
        ensures
            final(self)@ == old(self)@.ipts_clicked(idx as int),
            final(self)@.wf(),
    {
        if !self.ipts_entries[idx].writable {
            return;
        }
        let label = chars_of(self.ipts_entries[idx].label.as_str());
        let typed = if starts_with(label.as_slice(), IPTS_PREFIX) {
            let suffix = slice_subrange(label.as_slice(), IPTS_PREFIX.unicode_len(), label.len());
            assert(suffix@ == label@.skip(IPTS_PREFIX@.len() as int));
            text_of(suffix)
        } else {
            String::new()
        };
        self.ipts_selected = Some(idx);
        self.manual_ipts = typed;
        self.manual_ipts_msg = None;
        self.launch_status = None;
        assert(self@.manual_ipts =~= behind_prefix(old(self)@.ipts_entries[idx as int].label));
    }

    /// The user types an IPTS number. A number that is listed and writable is
    /// selected; of any other the user is told what is wrong with it.
    pub fn type_ipts(&mut self, typed: String)
        requires
            old(self)@.wf(),
        ensures
            final(self)@ == old(self)@.ipts_typed(typed@),
            final(self)@.wf(),
    {
        let chars = chars_of(typed.as_str());
        let wanted = trimmed(chars.as_slice());
        self.manual_ipts = typed;
        if wanted.len() == 0 {
            self.manual_ipts_msg = None;
            return;
        }
        if parse_u64(wanted).is_none() {
            self.manual_ipts_msg = Some(
                Notice { text: "Enter digits only".to_owned(), tone: Tone::Danger },
            );
            return;
        }
        let label = IPTS_PREFIX.to_owned().concat(text_of(wanted).as_str());
        match find_labelled(&self.ipts_entries, &label) {
            Some(i) => {
                if self.ipts_entries[i].writable {
                    self.ipts_selected = Some(i);
                    self.scroll_to_ipts = true;
                    self.manual_ipts_msg = None;
                    self.launch_status = None;
                } else {
                    self.manual_ipts_msg = Some(
                        Notice {
                            text: label.concat(" found but no write access"),
                            tone: Tone::Warning,
                        },
                    );
                }
            },
            None => {
                self.manual_ipts_msg = Some(
                    Notice { text: label.concat(" not found"), tone: Tone::Danger },
                );
            },
        }
    }

    /// Whether an application and an IPTS are selected that go together.
    pub fn ready(&self) -> (res: bool)
        requires
            self@.wf(),
        ensures
            res == (self@.selected is Some && self@.ipts_selected is Some),
    {
        match self.selected {
            Some(i) => self.app_available(i) && self.ipts_selected.is_some(),
            None => false,
        }
    }

    /// What the button offers. `since_launch` is how many seconds ago an
    /// application was launched.
    pub fn launch_button(&self, since_launch: Option<u64>) -> (res: LaunchButton)
        requires
            self@.wf(),
        ensures
            res == (if since_launch is Some && since_launch->0 < LAUNCHING_SECONDS {
                LaunchButton::Launching
            } else if self@.selected is Some && self@.ipts_selected is Some {
                LaunchButton::Ready
            } else {
                LaunchButton::Incomplete
            }),
    {
        if let Some(s) = since_launch {
            if s < LAUNCHING_SECONDS {
                return LaunchButton::Launching;
            }
        }
        if self.ready() {
            LaunchButton::Ready
        } else {
            LaunchButton::Incomplete
        }
    }

    /// The user launches the selected application in the selected IPTS: says
    /// what to copy and what to run. A notebook that cannot be copied is
    /// reported, and without a selection nothing happens.
    pub fn launch(&mut self, user: &str) -> (res: Option<LaunchOrder>)
        requires
            old(self)@.wf(),
        ensures
            final(self)@.wf(),
            old(self)@.selected is None || old(self)@.ipts_selected is None ==> res is None
                && final(self)@ == old(self)@,
            old(self)@.selected is Some && old(self)@.ipts_selected is Some ==> {
                let app = old(self)@.applications[old(self)@.selected->0].1;
                let entry = old(self)@.ipts_entries[old(self)@.ipts_selected->0];
                match provision::plan(app.path, ipts::destination(entry.path, user@)) {
                    Ok(plan) => {
                        &&& final(self)@ == old(self)@
                        &&& entry.writable
                        &&& app.available(old(self)@.instrument.shown_name())
                        &&& res is Some
                        &&& res->0.plan@ == plan
                        &&& res->0.marimo@ == app.marimo_path
                    },
                    Err(e) => {
                        &&& final(self)@ == (Portal {
                            launch_status: Some((e, Tone::Danger)),
                            ..old(self)@
                        })
                        &&& res is None
                    },
                }
            },
    {
        let (ai, ii) = match (self.selected, self.ipts_selected) {
            (Some(ai), Some(ii)) => (ai, ii),
            _ => {
                return None;
            },
        };
        let dest = destination_for(&self.ipts_entries[ii], user);
        let app = &self.applications[ai].1;
        match provision::provision(app, dest.as_slice()) {
            Ok(plan) => Some(LaunchOrder { plan, marimo: app.marimo_path.clone() }),
            Err(e) => {
                self.launch_status = Some(Notice { text: e, tone: Tone::Danger });
                None
            },
        }
    }

    /// The copies for a launch have failed.
    pub fn launch_refused(&mut self, reason: String)
        requires
            old(self)@.wf(),
        ensures
            final(self)@ == (Portal {
                launch_status: Some((reason@, Tone::Danger)),
                ..old(self)@
            }),
            final(self)@.wf(),
    {
        self.launch_status = Some(Notice { text: reason, tone: Tone::Danger });
    }

    /// The program that runs notebooks has not started.
    pub fn launch_failed(&mut self, marimo: &str, reason: &str)
        requires
            old(self)@.wf(),
        ensures
            final(self)@ == (Portal {
                launch_status: Some(
                    ("Failed to launch "@ + marimo@ + ": "@ + reason@, Tone::Danger),
                ),
                ..old(self)@
            }),
            final(self)@.wf(),
    {
        self.launch_status = Some(
            Notice {
                text: "Failed to launch ".to_owned().concat(marimo).concat(": ").concat(reason),
                tone: Tone::Danger,
            },
        );
    }

    /// The notebook is running in the folder `dest`. `lock_report` says where
    /// the user's browser is running, if it is on another machine.
    pub fn launch_started(&mut self, dest: &[u8], lock_report: Option<String>)
        requires
            old(self)@.wf(),
        ensures
            final(self)@ == old(self)@.started(
                text::lossy_utf8(dest@),
                text::text_view(lock_report),
            ),
            final(self)@.wf(),
    {
        self.launch_started_in(lossy(dest).as_str(), lock_report);
    }

    /// The notebook is running in the folder that shows as `dest`.
    pub fn launch_started_in(&mut self, dest: &str, lock_report: Option<String>)
        requires
            old(self)@.wf(),
        ensures
            final(self)@ == old(self)@.started(dest@, text::text_view(lock_report)),
            final(self)@.wf(),
    {
        self.launched = true;
        match lock_report {
            Some(report) => {
                self.show_report(report, ScanWindowKind::Scan);
                self.launch_status = Some(
                    Notice { text: RUNNING_ELSEWHERE.to_owned(), tone: Tone::Danger },
                );
            },
            None => {
                self.launch_status = Some(
                    Notice { text: "Provisioned ".to_owned().concat(dest), tone: Tone::Success },
                );
            },
        }
    }

    fn show_report(&mut self, report: String, kind: ScanWindowKind)
        requires
            old(self)@.wf(),
        ensures
            final(self)@ == old(self)@.report_shown(report@, kind),
            final(self)@.wf(),
    {
        self.scan_output = Some(report);
        self.scan_window_open = true;
        self.scan_window_kind = kind;
    }

    /// The user asks to kill stuck browser sessions: says whether to start a
    /// run. There is one run at a time, and none without the script.
    pub fn kill_stuck_browsers(&mut self, script_present: bool) -> (start: bool)
        requires
            old(self)@.wf(),
        ensures
            start == (!old(self)@.cleanup_running && script_present),
            final(self)@ == old(self)@.kill_asked(script_present),
            final(self)@.wf(),
    {
        if self.cleanup_running {
            return false;
        }
        if !script_present {
            self.cleanup_msg = Some(
                Notice {
                    text: "Missing script ".to_owned().concat(FIX_BROWSER_SCRIPT),
                    tone: Tone::Danger,
                },
            );
            return false;
        }
        self.cleanup_running = true;
        self.cleanup_msg = Some(
            Notice {
                text: "Killing stuck browser sessions on the analysis machines\u{2026}".to_owned(),
                tone: Tone::Warning,
            },
        );
        true
    }

    /// The kill run has ended: another one can be started.
    pub fn end_kill_run(&mut self)
        requires
            old(self)@.wf(),
        ensures
            final(self)@ == old(self)@.kill_ended(),
            final(self)@.wf(),
    {
        self.cleanup_running = false;
    }

    /// Sums up the report of a kill run and shows it.
    pub fn finish_kill_stuck_browsers(&mut self, report: String)
        requires
            old(self)@.wf(),
        ensures
            final(self)@ == old(self)@.kill_finished(report@),
            final(self)@.wf(),
    {
        let summary = parse_kill_summary(report.as_str());
        self.cleanup_msg = Some(kill_message(&summary));
        self.show_report(report, ScanWindowKind::Kill);
    }

    /// The kill run has ended without a report.
    pub fn lose_kill_run(&mut self)
        requires
            old(self)@.wf(),
        ensures
            final(self)@ == (Portal { cleanup_msg: None, ..old(self)@.kill_ended() }),
            final(self)@.wf(),
    {
        self.end_kill_run();
        self.cleanup_msg = None;
    }

    /// The browser has failed: says whether to start a scan for where it is
    /// running. There is one scan at a time, none where `lock_report` says it
    /// already, and none without the script.
    pub fn start_browser_scan(
        &mut self,
        why: &str,
        lock_report: Option<String>,
        script_present: bool,
    ) -> (start: bool)
        requires
            old(self)@.wf(),
        ensures
            start == (!old(self)@.scan_running && lock_report is None && script_present),
            final(self)@ == old(self)@.scan_asked(
                why@,
                text::text_view(lock_report),
                script_present,
            ),
            final(self)@.wf(),
    {
        if self.scan_running {
            return false;
        }
        if let Some(report) = lock_report {
            self.show_report(report, ScanWindowKind::Scan);
            self.launch_status = Some(
                Notice {
                    text: why.to_owned().concat(
                        " \u{2014} your browser is running on another machine (see the report window)",
                    ),
                    tone: Tone::Danger,
                },
            );
            return false;
        }
        if !script_present {
            self.launch_status = Some(
                Notice {
                    text: why.to_owned().concat(
                        " \u{2014} your browser may be running on another analysis machine",
                    ),
                    tone: Tone::Danger,
                },
            );
            return false;
        }
        self.launch_status = Some(
            Notice {
                text: why.to_owned().concat(
                    " \u{2014} scanning the analysis machines for an already-running browser\u{2026}",
                ),
                tone: Tone::Warning,
            },
        );
        self.scan_running = true;
        true
    }

    /// Looks after the scan: `report` is what it has reported, if anything.
    pub fn poll_browser_scan(&mut self, report: Option<String>)
        requires
            old(self)@.wf(),
        ensures
            final(self)@ == old(self)@.scan_polled(text::text_view(report)),
            final(self)@.wf(),
    {
        if !self.scan_running {
            return;
        }
        let report = match report {
            Some(report) => report,
            None => {
                return;
            },
        };
        self.scan_running = false;
        if scan_found_processes(report.as_str()) {
            self.scan_window_open = true;
            self.scan_window_kind = ScanWindowKind::Scan;
            self.launch_status = Some(
                Notice { text: RUNNING_ELSEWHERE.to_owned(), tone: Tone::Danger },
            );
        } else {
            self.launch_status = Some(
                Notice {
                    text: "Firefox failed, but no already-running browser was found on the analysis machines".to_owned(),
                    tone: Tone::Warning,
                },
            );
        }
        self.scan_output = Some(report);
    }

    /// The user closes the report window.
    pub fn close_report(&mut self)
        requires
            old(self)@.wf(),
        ensures
            final(self)@ == (Portal { scan_window_open: false, ..old(self)@ }),
            final(self)@.wf(),
    {
        self.scan_window_open = false;
    }

    /// The list of IPTS has been drawn, and has scrolled if it had to.
    pub fn ipts_drawn(&mut self)
        requires
            old(self)@.wf(),
        ensures
            final(self)@ == (Portal { scroll_to_ipts: false, ..old(self)@ }),
            final(self)@.wf(),
    {
        self.scroll_to_ipts = false;
    }

    /// The logo to load now: that of the selected instrument, if another one
    /// was loaded last.
    pub fn logo_to_load(&mut self) -> (res: Option<Instrument>)
        requires
            old(self)@.wf(),
        ensures
            final(self)@ == (Portal {
                logo_instrument: Some(old(self)@.instrument),
                ..old(self)@
            }),
            final(self)@.wf(),
            res == (if old(self)@.logo_instrument == Some(old(self)@.instrument) {
                None
            } else {
                Some(old(self)@.instrument)
            }),
    {
        let due = match self.logo_instrument {
            Some(i) => i != self.instrument,
            None => true,
        };
        if due {
            self.logo_instrument = Some(self.instrument);
            Some(self.instrument)
        } else {
            None
        }
    }

    // ------------------------------------------------------------- what is known

    /// The catalog.
    pub fn applications(&self) -> (res: &Vec<(String, AppEntry)>)
        ensures
            catalog::app_views(res@) == self@.applications,
    {
        &self.applications
    }

    /// The catalog as it is listed.
    pub fn app_display(&self) -> (res: &Vec<DisplayItem>)
        ensures
            display::rows(res@) == self@.app_display,
    {
        &self.app_display
    }

    /// The selected application.
    pub fn selected(&self) -> (res: Option<usize>)
        ensures
            position(res) == self@.selected,
    {
        self.selected
    }

    /// The selected instrument.
    pub fn instrument(&self) -> (res: Instrument)
        ensures
            res == self@.instrument,
    {
        self.instrument
    }

    /// The IPTS of the selected instrument.
    pub fn ipts_entries(&self) -> (res: &Vec<IptsEntry>)
        ensures
            ipts::entry_views(res@) == self@.ipts_entries,
    {
        &self.ipts_entries
    }

    /// Why there is no list of IPTS, where there is none.
    pub fn ipts_error(&self) -> (res: Option<&str>)
        ensures
            match res {
                Some(s) => self@.ipts_error == Some(s@),
                None => self@.ipts_error is None,
            },
    {
        match &self.ipts_error {
            Some(s) => Some(s.as_str()),
            None => None,
        }
    }

    /// The selected IPTS.
    pub fn ipts_selected(&self) -> (res: Option<usize>)
        ensures
            position(res) == self@.ipts_selected,
    {
        self.ipts_selected
    }

    /// What the user has typed as an IPTS number.
    pub fn manual_ipts(&self) -> (res: &str)
        ensures
            res@ == self@.manual_ipts,
    {
        self.manual_ipts.as_str()
    }

    /// What is wrong with what the user has typed.
    pub fn manual_ipts_msg(&self) -> (res: Option<&Notice>)
        ensures
            match res {
                Some(n) => self@.manual_ipts_msg == Some(n@),
                None => self@.manual_ipts_msg is None,
            },
    {
        match &self.manual_ipts_msg {
            Some(n) => Some(n),
            None => None,
        }
    }

    /// Whether the list is to scroll to the selected IPTS.
    pub fn scroll_to_ipts(&self) -> (res: bool)
        ensures
            res == self@.scroll_to_ipts,
    {
        self.scroll_to_ipts
    }

    /// How the launch is going.
    pub fn launch_status(&self) -> (res: Option<&Notice>)
        ensures
            match res {
                Some(n) => self@.launch_status == Some(n@),
                None => self@.launch_status is None,
            },
    {
        match &self.launch_status {
            Some(n) => Some(n),
            None => None,
        }
    }

    /// The picture to show, as a path.
    pub fn screenshot(&self) -> (res: Option<&str>)
        ensures
            match res {
                Some(s) => self@.screenshot == Some(s@),
                None => self@.screenshot is None,
            },
    {
        match &self.screenshot {
            Some(s) => Some(s.as_str()),
            None => None,
        }
    }

    /// How the kill run is going.
    pub fn cleanup_msg(&self) -> (res: Option<&Notice>)
        ensures
            match res {
                Some(n) => self@.cleanup_msg == Some(n@),
                None => self@.cleanup_msg is None,
            },
    {
        match &self.cleanup_msg {
            Some(n) => Some(n),
            None => None,
        }
    }

    /// Whether a kill run is running.
    pub fn cleanup_running(&self) -> (res: bool)
        ensures
            res == self@.cleanup_running,
    {
        self.cleanup_running
    }

    /// Whether a scan is running.
    pub fn scan_running(&self) -> (res: bool)
        ensures
            res == self@.scan_running,
    {
        self.scan_running
    }

    /// The report to show.
    pub fn scan_output(&self) -> (res: Option<&str>)
        ensures
            match res {
                Some(s) => self@.scan_output == Some(s@),
                None => self@.scan_output is None,
            },
    {
        match &self.scan_output {
            Some(s) => Some(s.as_str()),
            None => None,
        }
    }

    /// Whether the report window is open.
    pub fn scan_window_open(&self) -> (res: bool)
        ensures
            res == self@.scan_window_open,
    {
        self.scan_window_open
    }

    /// What the report window is about.
    pub fn scan_window_kind(&self) -> (res: ScanWindowKind)
        ensures
            res == self@.scan_window_kind,
    {
        self.scan_window_kind
    }

    // ------------------------------------------------------------- what is shown

    /// The title of the window.
    pub fn title(&self) -> (res: String)
        ensures
            res@ == self@.instrument.shown_name() + " General Tools"@,
    {
        self.instrument.name().to_owned().concat(" General Tools")
    }

    /// How many IPTS the user can write to.
    pub fn writable_count(&self) -> (res: usize)
        ensures
            res == writable(self@.ipts_entries),
    {
        let n: usize = self.ipts_entries.len();
        let ghost all = self@.ipts_entries;
        let mut count: usize = 0;
        for i in 0..n
            invariant
                n == self.ipts_entries@.len(),
                all == ipts::entry_views(self.ipts_entries@),
                count == writable(all.take(i as int)),
                count <= i,
        {
            proof {
                assert(all.take(i + 1).drop_last() == all.take(i as int));
                assert(all[i as int] == self.ipts_entries@[i as int]@);
            }
            if self.ipts_entries[i].writable {
                count = count + 1;
            }
        }
        assert(all.take(n as int) == all);
        count
    }

    /// The line above the list of IPTS.
    pub fn access_line(&self) -> (res: String)
        ensures
            res@ == "You have write access to "@ + number::decimal(writable(self@.ipts_entries))
                + " IPTS at "@ + self@.instrument.shown_name(),
    {
        "You have write access to ".to_owned().concat(
            decimal_of(self.writable_count()).as_str(),
        ).concat(" IPTS at ").concat(self.instrument.name())
    }

    /// What is said of an application that is not for the selected instrument.
    pub fn not_available_hint(&self) -> (res: String)
        ensures
            res@ == "Not available at "@ + self@.instrument.shown_name(),
    {
        "Not available at ".to_owned().concat(self.instrument.name())
    }

    /// The description of the selected application, if it has one.
    pub fn description(&self) -> (res: Option<String>)
        requires
            self@.wf(),
        ensures
            text::text_view(res) == (if self@.selected is Some
                && self@.applications[self@.selected->0].1.description.len() > 0 {
                Some(self@.applications[self@.selected->0].1.description)
            } else {
                None
            }),
    {
        match self.selected {
            Some(i) => {
                let text = self.applications[i].1.description.clone();
                if text.as_str().is_empty() {
                    None
                } else {
                    Some(text)
                }
            },
            None => None,
        }
    }

    /// Whether programs may still report something: the portal then looks
    /// after them without waiting for the user.
    pub fn keeps_polling(&self) -> (res: bool)
        ensures
            res == (self@.launched || self@.scan_running),
    {
        self.launched || self.scan_running
    }
}

/// How many of the entries are writable.
pub open spec fn writable(entries: Seq<IptsModel>) -> nat
    decreases entries.len(),
{
    if entries.len() == 0 {
        0
    } else {
        writable(entries.drop_last()) + if entries.last().writable {
            1nat
        } else {
            0nat
        }
    }
}

/// The texts of the report window.
#[derive(Debug)]
pub struct WindowTexts {
    pub title: &'static str,
    pub intro: &'static str,
    pub advice: &'static str,
}

/// What the report window says around the report.
pub fn window_texts(kind: ScanWindowKind) -> (res: WindowTexts)
    ensures
        kind == ScanWindowKind::Scan ==> {
            &&& res.title@ == "Browser already running elsewhere"@
            &&& res.intro@
                == "Firefox cannot open the notebook on this machine: your browser profile is on shared storage and is locked by a session on the machine(s) listed below."@
            &&& res.advice@
                == "Click \u{1F527} Fix browser issue to close it from here, or log into that machine and close the browser (and any Jupyter) there, then launch again."@
        },
        kind == ScanWindowKind::Kill ==> {
            &&& res.title@ == "Fix browser issue \u{2014} result"@
            &&& res.intro@
                == "Your Firefox / Jupyter processes were looked for on every analysis machine and killed where found. Machines marked \"unreachable\" could not be logged into, so nothing was checked or killed there."@
            &&& res.advice@
                == "If your browser still refuses to open after this, log into the listed machine and close it there."@
        },
{
    match kind {
        ScanWindowKind::Scan => WindowTexts {
            title: "Browser already running elsewhere",
            intro: "Firefox cannot open the notebook on this machine: your browser profile is on shared storage and is locked by a session on the machine(s) listed below.",
            advice: "Click \u{1F527} Fix browser issue to close it from here, or log into that machine and close the browser (and any Jupyter) there, then launch again.",
        },
        ScanWindowKind::Kill => WindowTexts {
            title: "Fix browser issue \u{2014} result",
            intro: "Your Firefox / Jupyter processes were looked for on every analysis machine and killed where found. Machines marked \"unreachable\" could not be logged into, so nothing was checked or killed there.",
            advice: "If your browser still refuses to open after this, log into the listed machine and close it there.",
        },
    }
}

// ------------------------------------------------------------------------ laws

/// Typing the number that a click on an IPTS has filled in selects the same
/// IPTS, where its label is that of no entry before it.
pub proof fn typing_what_was_clicked(p: Portal, i: int)
    requires
        p.wf(),
        0 <= i < p.ipts_entries.len(),
        p.ipts_entries[i].writable,
        text::begins(p.ipts_entries[i].label, IPTS_PREFIX@),
        number::parsed_u64(behind_prefix(p.ipts_entries[i].label)) is Some,
        forall|j: int|
            0 <= j < i ==> (#[trigger] p.ipts_entries[j]).label != p.ipts_entries[i].label,
    ensures
        ({
            let clicked = p.ipts_clicked(i);
            let typed = clicked.ipts_typed(clicked.manual_ipts);
            &&& typed.ipts_selected == Some(i)
            &&& typed == (Portal { scroll_to_ipts: true, ..clicked })
        }),
{
    let label = p.ipts_entries[i].label;
    let suffix = behind_prefix(label);
    let k = IPTS_PREFIX@.len() as int;
    lemma_number_is_ink(suffix);
    text::lemma_trim_nothing(suffix);
    assert(label =~= IPTS_PREFIX@ + suffix) by {
        assert(label.subrange(0, k) == IPTS_PREFIX@);
        assert(label =~= label.subrange(0, k) + label.skip(k));
    }
    lemma_labelled(p.ipts_entries, label);
}

/// A number has no white space around it.
proof fn lemma_number_is_ink(s: Seq<char>)
    requires
        number::parsed_u64(s) is Some,
    ensures
        s.len() > 0,
        !text::white_space(s[0]),
        !text::white_space(s.last()),
{
    let run = if s[0] == '+' {
        s.skip(1)
    } else {
        s
    };
    assert(text::digit(run[run.len() - 1]));
    assert(s.last() == run[run.len() - 1]);
    assert(s[0] == '+' || text::digit(run[0]));
}

/// What is run is the notebook that was copied.
pub proof fn copied_notebook_is_run(path: Seq<char>, dest: Seq<u8>, marimo: Seq<char>)
    requires
        provision::plan(path, dest) is Ok,
    ensures
        ({
            let plan = provision::plan(path, dest)->Ok_0;
            let run = run_command(plan, marimo);
            paths::join(run.folder->0, run.args[1]) == plan.dst_notebook
        }),
{
}

/// While a kill run is running, asking for another one does nothing.
pub proof fn one_kill_run_at_a_time(p: Portal, script_present: bool)
    ensures
        p.kill_asked(true).kill_asked(script_present) == p.kill_asked(true),
        p.kill_asked(true).cleanup_running,
{
}

/// While a scan is running, another failure of the browser does nothing.
pub proof fn one_scan_at_a_time(
    p: Portal,
    why: Seq<char>,
    again: Seq<char>,
    lock_report: Option<Seq<char>>,
    script_present: bool,
)
    ensures
        p.scan_asked(why, None, true).scan_running,
        p.scan_asked(why, None, true).scan_asked(again, lock_report, script_present)
            == p.scan_asked(why, None, true),
{
}

/// An application that is for every instrument stays selected when the
/// instrument changes; one that is not for the new instrument does not.
pub proof fn selection_follows_the_instrument(
    p: Portal,
    instrument: Instrument,
    listing: Result<Seq<IptsModel>, Seq<char>>,
)
    requires
        p.wf(),
        p.selected is Some,
    ensures
        ({
            let next = (Portal { instrument, ..p }).reloaded(listing);
            let app = p.applications[p.selected->0].1;
            &&& next.wf()
            &&& next.selected == (if app.available(instrument.shown_name()) {
                p.selected
            } else {
                None
            })
            &&& app.instruments.len() == 0 ==> next.selected == p.selected
            &&& next.ipts_selected is None
            &&& next.launch_status is None
        }),
{
}

/// A kill run is called a success exactly where it could log in, reached some
/// machine, and left nothing running. Its report is shown either way, and
/// nothing else changes.
pub proof fn kill_run_is_summed_up(p: Portal, report: Seq<char>)
    ensures
        ({
            let next = p.kill_finished(report);
            let s = browser::kill_summary(report);
            &&& next == (Portal {
                cleanup_msg: next.cleanup_msg,
                scan_output: Some(report),
                scan_window_open: true,
                scan_window_kind: ScanWindowKind::Kill,
                ..p
            })
            &&& next.cleanup_msg is Some
            &&& (next.cleanup_msg->0).1 == Tone::Success <==> !s.auth_failed && (s.found == 0
                && s.clean > 0 || s.found > 0 && s.remaining == 0)
            &&& (next.cleanup_msg->0).1 != Tone::Success ==> (next.cleanup_msg->0).1 == Tone::Danger
        }),
{
}

/// After a kill run has ended, in whatever way, another one can be started.
pub proof fn kill_runs_follow_each_other(p: Portal, report: Seq<char>)
    ensures
        !p.kill_ended().cleanup_running,
        p.kill_ended().kill_finished(report).kill_asked(true).cleanup_running,
{
}

/// The state has these fields.
proof fn view_holds_the_fields(m: MyApp)
    ensures
        m@.applications == catalog::app_views(m.applications@),
        m@.app_display == display::rows(m.app_display@),
        m.selected is None <==> m@.selected is None,
        m.selected matches Some(i) ==> m@.selected == Some(i as int),
        m@.instrument == m.instrument,
        m@.ipts_entries == ipts::entry_views(m.ipts_entries@),
        m@.ipts_error == text::text_view(m.ipts_error),
        m.ipts_selected is None <==> m@.ipts_selected is None,
        m.ipts_selected matches Some(i) ==> m@.ipts_selected == Some(i as int),
        m@.manual_ipts == m.manual_ipts@,
        m@.manual_ipts_msg == notice::shown(m.manual_ipts_msg),
        m@.scroll_to_ipts == m.scroll_to_ipts,
        m@.launched == m.launched,
        m@.launch_status == notice::shown(m.launch_status),
        m@.screenshot == text::text_view(m.screenshot),
        m@.logo_instrument == m.logo_instrument,
        m@.cleanup_msg == notice::shown(m.cleanup_msg),
        m@.cleanup_running == m.cleanup_running,
        m@.scan_running == m.scan_running,
        m@.scan_output == text::text_view(m.scan_output),
        m@.scan_window_open == m.scan_window_open,
        m@.scan_window_kind == m.scan_window_kind,
{
}

/// A position and a listing are what they hold.
pub proof fn positions_and_listings_are_kept(i: usize, list: Vec<IptsEntry>, e: String)
    ensures
        position(Some(i)) == Some(i as int),
        position(None) is None,
        listing_view(Ok(list)) == Ok::<Seq<IptsModel>, Seq<char>>(ipts::entry_views(list@)),
        listing_view(Err(e)) == Err::<Seq<IptsModel>, Seq<char>>(e@),
{
}

/// What always holds of the portal: what is selected exists and can be used at
/// the selected instrument and written to, the list shows the catalog, the
/// picture is that of the selected application, and an open window has a report.
pub proof fn what_always_holds(p: Portal)
    ensures
        p.wf() <==> {
            &&& p.is_sound()
            &&& (p.selected matches Some(i) ==> p.available(i))
        },
        p.is_sound() <==> {
            &&& forall|row: RowModel| #[trigger]
                p.app_display.contains(row) <==> display::is_row(p.applications, row)
            &&& (p.selected matches Some(i) ==> 0 <= i < p.applications.len())
            &&& (p.ipts_selected matches Some(i) ==> 0 <= i < p.ipts_entries.len()
                && p.ipts_entries[i].writable)
            &&& (p.screenshot is Some <==> p.selected is Some
                && p.applications[p.selected->0].1.screenshot.len() > 0)
            &&& (p.screenshot matches Some(s) ==> s
                == p.applications[p.selected->0].1.screenshot)
            &&& (p.scan_window_open ==> p.scan_output is Some)
        },
{
}

/// An application can be used where it is for the selected instrument.
pub proof fn availability_is_that_of_the_instrument(p: Portal, i: int)
    ensures
        p.instrument == Instrument::Venus ==> (p.available(i) <==> p.applications[i].1.available(
            "VENUS"@,
        )),
        p.instrument == Instrument::Mars ==> (p.available(i) <==> p.applications[i].1.available(
            "MARS"@,
        )),
{
}

/// The portal starts with VENUS, its list of IPTS, and nothing selected,
/// running or reported.
pub proof fn start_has_nothing_selected(
    apps: Seq<(Seq<char>, AppModel)>,
    rows: Seq<RowModel>,
    list: Seq<IptsModel>,
    e: Seq<char>,
)
    ensures
        ({
            let ok = Portal::initial(apps, rows, Ok(list));
            let bad = Portal::initial(apps, rows, Err(e));
            &&& ok.applications == apps
            &&& ok.app_display == rows
            &&& ok.instrument == Instrument::Venus
            &&& ok.ipts_entries == list
            &&& ok.ipts_error is None
            &&& ok.selected is None
            &&& ok.ipts_selected is None
            &&& ok.manual_ipts.len() == 0
            &&& ok.manual_ipts_msg is None
            &&& !ok.scroll_to_ipts
            &&& !ok.launched
            &&& ok.launch_status is None
            &&& ok.screenshot is None
            &&& ok.logo_instrument is None
            &&& ok.cleanup_msg is None
            &&& !ok.cleanup_running
            &&& !ok.scan_running
            &&& ok.scan_output is None
            &&& !ok.scan_window_open
            &&& ok.scan_window_kind == ScanWindowKind::Scan
            &&& bad == (Portal { ipts_entries: Seq::empty(), ipts_error: Some(e), ..ok })
        }),
{
}

/// Another list of IPTS replaces the one before, clears what was tied to it, and
/// leaves everything else, but for a selected application that cannot be used.
pub proof fn reloading_clears_what_was_tied(p: Portal, list: Seq<IptsModel>, e: Seq<char>)
    ensures
        ({
            let ok = p.reloaded(Ok(list));
            let bad = p.reloaded(Err(e));
            &&& ok == (Portal {
                ipts_entries: list,
                ipts_error: None,
                ipts_selected: None,
                manual_ipts: Seq::empty(),
                manual_ipts_msg: None,
                launch_status: None,
                selected: ok.selected,
                screenshot: ok.screenshot,
                ..p
            })
            &&& bad == (Portal { ipts_entries: Seq::empty(), ipts_error: Some(e), ..ok })
            &&& p.selected is None ==> ok.selected is None && ok.screenshot == p.screenshot
            &&& p.selected matches Some(i) ==> if p.available(i) {
                ok.selected == Some(i) && ok.screenshot == p.screenshot
            } else {
                ok.selected is None && ok.screenshot is None
            }
        }),
{
}

/// A click on an application that can be used selects it, shows its picture
/// where it has one, and takes the last message away; nothing else changes. A
/// click on another one changes nothing.
pub proof fn clicked_application_is_selected(p: Portal, i: int)
    ensures
        ({
            let next = p.app_clicked(i);
            let path = p.applications[i].1.screenshot;
            &&& !p.available(i) ==> next == p
            &&& p.available(i) ==> next == (Portal {
                selected: Some(i),
                launch_status: None,
                screenshot: next.screenshot,
                ..p
            })
            &&& p.available(i) && path.len() > 0 ==> next.screenshot == Some(path)
            &&& p.available(i) && path.len() == 0 ==> next.screenshot is None
        }),
{
}

/// A click on a writable IPTS selects it and fills in its number; nothing else
/// changes but for the messages, which go. A click on another one changes
/// nothing.
pub proof fn clicked_ipts_is_selected(p: Portal, i: int, suffix: Seq<char>)
    ensures
        ({
            let next = p.ipts_clicked(i);
            let entry = p.ipts_entries[i];
            &&& !entry.writable ==> next == p
            &&& entry.writable ==> next == (Portal {
                ipts_selected: Some(i),
                manual_ipts: next.manual_ipts,
                manual_ipts_msg: None,
                launch_status: None,
                ..p
            })
            &&& entry.writable && entry.label == "IPTS-"@ + suffix ==> next.manual_ipts == suffix
            &&& entry.writable && !"IPTS-"@.is_prefix_of(entry.label) ==> next.manual_ipts.len()
                == 0
        }),
{
    let pre = "IPTS-"@;
    assert((pre + suffix).subrange(0, pre.len() as int) =~= pre);
    assert((pre + suffix).skip(pre.len() as int) =~= suffix);
}

/// What the user types is kept as it is. A number, with whatever white space
/// around it, selects the first IPTS with that number where it is writable; of
/// any other the user is told what is wrong, and the selection stays.
pub proof fn typed_number_is_looked_up(
    p: Portal,
    before: Seq<char>,
    word: Seq<char>,
    behind: Seq<char>,
    i: int,
)
    requires
        forall|k: int| 0 <= k < before.len() ==> text::white_space(#[trigger] before[k]),
        forall|k: int| 0 <= k < behind.len() ==> text::white_space(#[trigger] behind[k]),
        word.len() > 0 ==> !text::white_space(word[0]) && !text::white_space(word.last()),
    ensures
        ({
            let typed = before + word + behind;
            let next = p.ipts_typed(typed);
            let label = "IPTS-"@ + word;
            let is_number = number::parsed_u64(word) is Some;
            let first = 0 <= i < p.ipts_entries.len() && p.ipts_entries[i].label == label && (
            forall|j: int| 0 <= j < i ==> (#[trigger] p.ipts_entries[j]).label != label);
            let nowhere = forall|j: int|
                0 <= j < p.ipts_entries.len() ==> (#[trigger] p.ipts_entries[j]).label != label;
            &&& word.len() == 0 ==> next == (Portal {
                manual_ipts: typed,
                manual_ipts_msg: None,
                ..p
            })
            &&& word.len() > 0 && !is_number ==> next == (Portal {
                manual_ipts: typed,
                manual_ipts_msg: Some(("Enter digits only"@, Tone::Danger)),
                ..p
            })
            &&& is_number && first && p.ipts_entries[i].writable ==> next == (Portal {
                manual_ipts: typed,
                manual_ipts_msg: None,
                ipts_selected: Some(i),
                scroll_to_ipts: true,
                launch_status: None,
                ..p
            })
            &&& is_number && first && !p.ipts_entries[i].writable ==> next == (Portal {
                manual_ipts: typed,
                manual_ipts_msg: Some((label + " found but no write access"@, Tone::Warning)),
                ..p
            })
            &&& is_number && nowhere ==> next == (Portal {
                manual_ipts: typed,
                manual_ipts_msg: Some((label + " not found"@, Tone::Danger)),
                ..p
            })
        }),
{
    text::trimming_takes_off_white_space(before, word, behind);
    let label = "IPTS-"@ + word;
    lemma_labelled(p.ipts_entries, label);
    if let Some(k) = labelled(p.ipts_entries, label) {
        if 0 <= i < p.ipts_entries.len() && p.ipts_entries[i].label == label && (forall|j: int|
            0 <= j < i ==> (#[trigger] p.ipts_entries[j]).label != label) {
            if k < i {
                assert(p.ipts_entries[k].label != label);
            }
            if i < k {
                assert(p.ipts_entries[i].label != label);
            }
        }
    }
}

/// A started notebook is said to be provisioned, unless the browser is running
/// elsewhere: then that is said, and the report on it is shown.
pub proof fn started_notebook_is_announced(p: Portal, dest: Seq<char>, report: Seq<char>)
    ensures
        p.started(dest, None) == (Portal {
            launched: true,
            launch_status: Some(("Provisioned "@ + dest, Tone::Success)),
            ..p
        }),
        p.started(dest, Some(report)) == (Portal {
            launched: true,
            launch_status: Some(
                (
                    "Your browser is already running on another machine (see the report window)"@,
                    Tone::Danger,
                ),
            ),
            scan_output: Some(report),
            scan_window_open: true,
            scan_window_kind: ScanWindowKind::Scan,
            ..p
        }),
{
}

/// A kill run starts where none is running and the script is there; without the
/// script the user is told so, and while one is running nothing happens.
pub proof fn kill_run_starts_once(p: Portal, present: bool)
    ensures
        p.cleanup_running ==> p.kill_asked(present) == p,
        !p.cleanup_running ==> p.kill_asked(true) == (Portal {
            cleanup_running: true,
            cleanup_msg: Some(
                (
                    "Killing stuck browser sessions on the analysis machines\u{2026}"@,
                    Tone::Warning,
                ),
            ),
            ..p
        }),
        !p.cleanup_running ==> p.kill_asked(false) == (Portal {
            cleanup_msg: Some(
                (
                    "Missing script /SNS/VENUS/shared/software/bin/list_and_fix_running_browser.sh"@,
                    Tone::Danger,
                ),
            ),
            ..p
        }),
        p.kill_ended() == (Portal { cleanup_running: false, ..p }),
{
    reveal_strlit(
        "Missing script /SNS/VENUS/shared/software/bin/list_and_fix_running_browser.sh",
    );
    reveal_strlit("Missing script ");
    reveal_strlit("/SNS/VENUS/shared/software/bin/list_and_fix_running_browser.sh");
    assert("Missing script /SNS/VENUS/shared/software/bin/list_and_fix_running_browser.sh"@
        =~= "Missing script "@ + FIX_BROWSER_SCRIPT@);
}

/// What is said of a kill run is what its report sums up to.
pub proof fn kill_run_is_told_by_its_report(p: Portal, report: Seq<char>)
    ensures
        p.kill_finished(report).cleanup_msg == Some(
            browser::kill_notice(browser::kill_summary(report)),
        ),
{
}

/// Where the browser fails, a lock elsewhere is reported at once; else a scan
/// is started where the script is there. While one is running nothing happens.
pub proof fn failed_browser_is_looked_for(
    p: Portal,
    why: Seq<char>,
    report: Seq<char>,
    lock: Option<Seq<char>>,
    present: bool,
)
    ensures
        p.scan_running ==> p.scan_asked(why, lock, present) == p,
        !p.scan_running ==> {
            &&& p.scan_asked(why, Some(report), present) == (Portal {
                launch_status: Some(
                    (
                        why
                            + " \u{2014} your browser is running on another machine (see the report window)"@,
                        Tone::Danger,
                    ),
                ),
                scan_output: Some(report),
                scan_window_open: true,
                scan_window_kind: ScanWindowKind::Scan,
                ..p
            })
            &&& p.scan_asked(why, None, false) == (Portal {
                launch_status: Some(
                    (
                        why + " \u{2014} your browser may be running on another analysis machine"@,
                        Tone::Danger,
                    ),
                ),
                ..p
            })
            &&& p.scan_asked(why, None, true) == (Portal {
                scan_running: true,
                launch_status: Some(
                    (
                        why
                            + " \u{2014} scanning the analysis machines for an already-running browser\u{2026}"@,
                        Tone::Warning,
                    ),
                ),
                ..p
            })
        },
{
}

/// The report of a scan ends it and is kept. The window is opened exactly where
/// it lists processes. Without a scan, or without its report, nothing happens.
pub proof fn scan_ends_with_its_report(p: Portal, report: Seq<char>, maybe: Option<Seq<char>>)
    ensures
        !p.scan_running ==> p.scan_polled(maybe) == p,
        p.scan_polled(None) == p,
        p.scan_running && browser::lists_processes(report) ==> p.scan_polled(Some(report)) == (
        Portal {
            scan_running: false,
            scan_output: Some(report),
            scan_window_open: true,
            scan_window_kind: ScanWindowKind::Scan,
            launch_status: Some(
                (
                    "Your browser is already running on another machine (see the report window)"@,
                    Tone::Danger,
                ),
            ),
            ..p
        }),
        p.scan_running && !browser::lists_processes(report) ==> p.scan_polled(Some(report)) == (
        Portal {
            scan_running: false,
            scan_output: Some(report),
            launch_status: Some(
                (
                    "Firefox failed, but no already-running browser was found on the analysis machines"@,
                    Tone::Warning,
                ),
            ),
            ..p
        }),
{
}

/// What is shown is the report, in a window of its kind, and nothing else
/// changes.
pub proof fn shown_report_is_the_report(p: Portal, report: Seq<char>, kind: ScanWindowKind)
    ensures
        p.report_shown(report, kind) == (Portal {
            scan_output: Some(report),
            scan_window_open: true,
            scan_window_kind: kind,
            ..p
        }),
{
}

/// Writable entries are counted one by one.
pub proof fn writable_entries_are_counted(a: Seq<IptsModel>, b: Seq<IptsModel>)
    ensures
        writable(a + b) == writable(a) + writable(b),
        a.len() == 1 && a[0].writable ==> writable(a) == 1,
        a.len() == 1 && !a[0].writable ==> writable(a) == 0,
    decreases b.len(),
{
    if a.len() == 1 {
        assert(a.drop_last().len() == 0);
        assert(writable(a.drop_last()) == 0);
    }
    if b.len() == 0 {
        assert(a + b =~= a);
    } else {
        writable_entries_are_counted(a, b.drop_last());
        assert((a + b).drop_last() =~= a + b.drop_last());
    }
}

/// A notebook is run by name, in its folder, without a window, and with room
/// for its output.
pub proof fn notebook_is_run_by_name(plan: PlanModel, marimo: Seq<char>)
    ensures
        ({
            let run = run_command(plan, marimo);
            &&& run.program == marimo
            &&& run.args.len() == 3
            &&& run.args[0] == paths::bytes("run"@)
            &&& run.args[1] == plan.file_name
            &&& run.args[2] == paths::bytes("--headless"@)
            &&& run.variable == Some(("MARIMO_OUTPUT_MAX_BYTES"@, "20000000"@))
            &&& run.folder == Some(plan.dest)
        }),
{
}

} // verus!

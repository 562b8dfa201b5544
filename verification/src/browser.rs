//! Reading what the browser maintenance script reports, and saying so.
//!
//! The script lists (`list`) or kills (`kill`) the user's browser sessions on
//! the analysis machines. Its closing lines count what it found.
use crate::command;
use crate::command::{with_arguments, Invocation};
use crate::notice::{Notice, Tone};
use crate::number;
use crate::number::{decimal_of, numbers_in};
use crate::paths;
use crate::split;
use crate::split::lines_of;
use crate::text;
use crate::text::{
    chars_of, contains, find_in, lossy, starts_with, text_of, trimmed, trimmed_end, trimmed_start,
};
use vstd::prelude::*;
use vstd::slice::slice_subrange;
use vstd::string::*;

verus! {

/// The script that lists and kills stuck browser sessions.
pub const FIX_BROWSER_SCRIPT: &'static str =
    "/SNS/VENUS/shared/software/bin/list_and_fix_running_browser.sh";

/// How the script is run to kill the user's sessions, saying what it does on
/// which machine.
pub fn kill_command() -> (res: Invocation)
    ensures
        res@ == command::plain(
            FIX_BROWSER_SCRIPT@,
            seq![paths::bytes("kill"@), paths::bytes("-v"@)],
        ),
{
    with_arguments(FIX_BROWSER_SCRIPT, "kill", "-v")
}

/// How the script is run to list where the user's Firefox is running.
pub fn scan_command() -> (res: Invocation)
    ensures
        res@ == command::plain(
            FIX_BROWSER_SCRIPT@,
            seq![paths::bytes("list"@), paths::bytes("-firefox"@)],
        ),
{
    with_arguments(FIX_BROWSER_SCRIPT, "list", "-firefox")
}

/// What a finished program wrote.
#[derive(Debug)]
pub struct Output {
    pub stdout: Vec<u8>,
    pub stderr: Vec<u8>,
}

// ---------------------------------------------------------------- scan report

/// A line that opens the block of a host with processes:
/// `[host] N process(es):`.
pub open spec fn host_line(line: Seq<char>) -> bool {
    text::begins(text::trim_start(line), "["@) && text::has_text(line, "process(es):"@)
}

/// The report lists a host on which processes were found.
pub open spec fn lists_processes(report: Seq<char>) -> bool {
    exists|i: int|
        0 <= i < split::lines(report).len() && host_line(#[trigger] split::lines(report)[i])
}

/// Whether the report lists a host on which processes were found.
pub fn scan_found_processes(report: &str) -> (res: bool)
    ensures
        res == lists_processes(report@),
{
    let chars = chars_of(report);
    let lines = lines_of(chars.as_slice());
    let n: usize = lines.len();
    let ghost all = split::lines(report@);
    for i in 0..n
        invariant
            n == lines@.len(),
            text::pieces(lines@) == all,
            all == split::lines(report@),
            forall|j: int| 0 <= j < i ==> !host_line(#[trigger] all[j]),
    {
        assert(all[i as int] == lines@[i as int]@);
        if starts_with(trimmed_start(lines[i]), "[") && contains(lines[i], "process(es):") {
            return true;
        }
    }
    false
}

// --------------------------------------------------------------- kill summary

/// What a kill run did, as its closing lines count it.
#[derive(Debug, Clone, Copy, PartialEq, Eq, Structural)]
pub struct KillSummary {
    pub found: usize,
    pub hosts: usize,
    pub remaining: usize,
    pub clean: usize,
    pub unreachable: usize,
    pub auth_failed: bool,
}

/// The `i`-th number, or zero where there are fewer.
pub open spec fn nth_or_zero(n: Seq<usize>, i: int) -> usize {
    if 0 <= i < n.len() {
        n[i]
    } else {
        0
    }
}

/// `Found N process(es) on M host(s); K still running after kill.`
pub open spec fn found_line(line: Seq<char>) -> bool {
    text::begins(line, "Found "@) && text::has_text(line, "still running after kill"@)
}

/// `A host(s) clean, B unreachable ...`
pub open spec fn clean_line(line: Seq<char>) -> bool {
    text::has_text(line, "host(s) clean"@) && text::has_text(line, "unreachable"@)
}

/// What `s` becomes by reading one more line.
pub open spec fn read_line(s: KillSummary, line: Seq<char>) -> KillSummary {
    let n = number::numbers(line);
    if found_line(line) {
        KillSummary {
            found: nth_or_zero(n, 0),
            hosts: nth_or_zero(n, 1),
            remaining: nth_or_zero(n, 2),
            ..s
        }
    } else if clean_line(line) {
        KillSummary { clean: nth_or_zero(n, 0), unreachable: nth_or_zero(n, 1), ..s }
    } else {
        s
    }
}

/// What lines add up to: each counting line replaces what was counted by an
/// earlier one of its kind.
pub open spec fn read_lines(lines: Seq<Seq<char>>, auth_failed: bool) -> KillSummary
    decreases lines.len(),
{
    if lines.len() == 0 {
        KillSummary { found: 0, hosts: 0, remaining: 0, clean: 0, unreachable: 0, auth_failed }
    } else {
        read_line(read_lines(lines.drop_last(), auth_failed), text::trim(lines.last()))
    }
}

/// The summary of a report.
pub open spec fn kill_summary(report: Seq<char>) -> KillSummary {
    read_lines(split::lines(report), text::has_text(report, "Permission denied"@))
}

fn number_at(n: &Vec<usize>, i: usize) -> (res: usize)
    ensures
        res == nth_or_zero(n@, i as int),
{
    if i < n.len() {
        n[i]
    } else {
        0
    }
}

/// Reads the summary out of the report of a kill run.
pub fn parse_kill_summary(report: &str) -> (res: KillSummary)
    ensures
        res == kill_summary(report@),
{
    let chars = chars_of(report);
    let auth_failed = contains(chars.as_slice(), "Permission denied");
    let mut s = KillSummary {
        found: 0,
        hosts: 0,
        remaining: 0,
        clean: 0,
        unreachable: 0,
        auth_failed,
    };
    let lines = lines_of(chars.as_slice());
    let n: usize = lines.len();
    let ghost all = split::lines(report@);
    for i in 0..n
        invariant
            n == lines@.len(),
            text::pieces(lines@) == all,
            s == read_lines(all.take(i as int), auth_failed),
    {
        let line = trimmed(lines[i]);
        proof {
            assert(all[i as int] == lines@[i as int]@);
            assert(all.take(i + 1).drop_last() == all.take(i as int));
        }
        if starts_with(line, "Found ") && contains(line, "still running after kill") {
            let n = numbers_in(line);
            s.found = number_at(&n, 0);
            s.hosts = number_at(&n, 1);
            s.remaining = number_at(&n, 2);
        } else if contains(line, "host(s) clean") && contains(line, "unreachable") {
            let n = numbers_in(line);
            s.clean = number_at(&n, 0);
            s.unreachable = number_at(&n, 1);
        }
    }
    assert(all.take(n as int) == all);
    s
}

/// What a kill run tells the user. A run that counts no machine, neither one
/// with processes nor a clean one, has reached none.
pub open spec fn kill_notice(s: KillSummary) -> (Seq<char>, Tone) {
    if s.auth_failed {
        (
            "Could not log into the analysis machines (SSH refused) \u{2014} see the report window"@,
            Tone::Danger,
        )
    } else if s.found == 0 && s.clean == 0 {
        (
            "No analysis machine could be reached \u{2014} see the report window"@,
            Tone::Danger,
        )
    } else if s.found == 0 {
        (
            "No browser or Jupyter of yours found running on the analysis machines"@,
            Tone::Success,
        )
    } else if s.remaining == 0 {
        (
            "Killed "@ + number::decimal(s.found as nat) + " process(es) on "@ + number::decimal(
                s.hosts as nat,
            ) + " machine(s) \u{2014} you can launch again"@,
            Tone::Success,
        )
    } else {
        (
            number::decimal(s.remaining as nat)
                + " process(es) still running after the kill \u{2014} see the report window"@,
            Tone::Danger,
        )
    }
}

/// The message about a finished kill run.
pub fn kill_message(s: &KillSummary) -> (res: Notice)
    ensures
        res@ == kill_notice(*s),
{
    if s.auth_failed {
        Notice {
            text: "Could not log into the analysis machines (SSH refused) \u{2014} see the report window".to_owned(),
            tone: Tone::Danger,
        }
    } else if s.found == 0 && s.clean == 0 {
        Notice {
            text: "No analysis machine could be reached \u{2014} see the report window".to_owned(),
            tone: Tone::Danger,
        }
    } else if s.found == 0 {
        Notice {
            text: "No browser or Jupyter of yours found running on the analysis machines".to_owned(),
            tone: Tone::Success,
        }
    } else if s.remaining == 0 {
        Notice {
            text: "Killed ".to_owned().concat(decimal_of(s.found).as_str()).concat(
                " process(es) on ",
            ).concat(decimal_of(s.hosts).as_str()).concat(
                " machine(s) \u{2014} you can launch again",
            ),
            tone: Tone::Success,
        }
    } else {
        Notice {
            text: decimal_of(s.remaining).concat(
                " process(es) still running after the kill \u{2014} see the report window",
            ),
            tone: Tone::Danger,
        }
    }
}

// -------------------------------------------------------- what the runs wrote

/// The report of a kill run: what it wrote, with its complaints below.
pub open spec fn kill_text(stdout: Seq<char>, stderr: Seq<char>) -> Seq<char> {
    if text::trim(stderr).len() == 0 {
        stdout
    } else {
        stdout + "\n"@ + text::trim_end(stderr)
    }
}

pub fn join_kill_output(stdout: &str, stderr: &str) -> (res: String)
    ensures
        res@ == kill_text(stdout@, stderr@),
{
    let err = chars_of(stderr);
    if trimmed(err.as_slice()).len() == 0 {
        stdout.to_owned()
    } else {
        let tail = text_of(trimmed_end(err.as_slice()));
        stdout.to_owned().concat("\n").concat(tail.as_str())
    }
}

/// The report of a kill run, or why it could not run.
pub fn kill_report(run: &Result<Output, String>) -> (res: String)
    ensures
        res@ == match run {
            Ok(out) => kill_text(text::lossy_utf8(out.stdout@), text::lossy_utf8(out.stderr@)),
            Err(e) => "Could not run "@ + FIX_BROWSER_SCRIPT@ + ": "@ + e@,
        },
{
    match run {
        Ok(out) => join_kill_output(
            lossy(out.stdout.as_slice()).as_str(),
            lossy(out.stderr.as_slice()).as_str(),
        ),
        Err(e) => "Could not run ".to_owned().concat(FIX_BROWSER_SCRIPT).concat(": ").concat(
            e.as_str(),
        ),
    }
}

/// The hint with which the script closes a listing.
pub const KILL_HINT: &'static str = "Re-run with 'kill'";

/// The report of a scan: its listing without the closing hint, or its
/// complaints where it listed nothing.
pub open spec fn scan_text(stdout: Seq<char>, stderr: Seq<char>) -> Seq<char> {
    if text::trim(stdout).len() == 0 {
        stderr
    } else {
        match text::find(stdout, KILL_HINT@) {
            Some(at) => text::trim_end(stdout.take(at)),
            None => stdout,
        }
    }
}

pub fn cut_scan_output(stdout: &str, stderr: &str) -> (res: String)
    ensures
        res@ == scan_text(stdout@, stderr@),
{
    let out = chars_of(stdout);
    if trimmed(out.as_slice()).len() == 0 {
        return stderr.to_owned();
    }
    match find_in(out.as_slice(), KILL_HINT) {
        Some(at) => {
            let listing = slice_subrange(out.as_slice(), 0, at);
            assert(listing@ == stdout@.take(at as int));
            text_of(trimmed_end(listing))
        },
        None => stdout.to_owned(),
    }
}

/// The report of a scan, or why it could not run.
pub fn scan_report(run: &Result<Output, String>) -> (res: String)
    ensures
        res@ == match run {
            Ok(out) => scan_text(text::lossy_utf8(out.stdout@), text::lossy_utf8(out.stderr@)),
            Err(e) => "Could not run the scan script: "@ + e@,
        },
{
    match run {
        Ok(out) => cut_scan_output(
            lossy(out.stdout.as_slice()).as_str(),
            lossy(out.stderr.as_slice()).as_str(),
        ),
        Err(e) => "Could not run the scan script: ".to_owned().concat(e.as_str()),
    }
}

// ------------------------------------------------------------------------ laws

/// The line in which a kill run counts processes.
pub open spec fn found_text(found: nat, hosts: nat, remaining: nat) -> Seq<char> {
    "Found "@ + number::decimal(found) + (" process(es) on "@ + number::decimal(hosts) + (
    " host(s); "@ + number::decimal(remaining) + " still running after kill."@))
}

/// The line in which a kill run counts hosts.
pub open spec fn clean_text(clean: nat, unreachable: nat, rest: Seq<char>) -> Seq<char> {
    number::decimal(clean) + (" host(s) clean, "@ + number::decimal(unreachable) + (" unreachable"@
        + rest))
}

/// The characters of a written number are neither white space nor line feeds.
proof fn lemma_digits_are_ink(n: nat)
    ensures
        number::decimal(n).len() > 0,
        forall|i: int|
            0 <= i < number::decimal(n).len() ==> text::digit(#[trigger] number::decimal(n)[i])
                && number::decimal(n)[i] != '\n' && !text::white_space(number::decimal(n)[i]),
{
    number::decimal_reads_back(n);
}

#[verifier::spinoff_prover]
proof fn lemma_found_text(found: usize, hosts: usize, remaining: usize)
    ensures
        ({
            let line = found_text(found as nat, hosts as nat, remaining as nat);
            &&& found_line(line)
            &&& text::trim(line) == line
            &&& line.last() == '.'
            &&& forall|i: int| 0 <= i < line.len() ==> #[trigger] line[i] != '\n'
            &&& number::numbers(line).len() >= 3
            &&& number::numbers(line)[0] == found
            &&& number::numbers(line)[1] == hosts
            &&& number::numbers(line)[2] == remaining
        }),
{
    lemma_found_words(found as nat, hosts as nat, remaining as nat);
    lemma_found_has_no_feed(found as nat, hosts as nat, remaining as nat);
    lemma_found_numbers(found, hosts, remaining);
    text::lemma_trim_nothing(found_text(found as nat, hosts as nat, remaining as nat));
}

/// What a line that counts processes begins and ends with.
#[verifier::spinoff_prover]
proof fn lemma_found_words(found: nat, hosts: nat, remaining: nat)
    ensures
        ({
            let line = found_text(found, hosts, remaining);
            &&& found_line(line)
            &&& line.len() > 0
            &&& line.last() == '.'
            &&& !text::white_space(line[0])
        }),
{
    reveal_strlit("Found ");
    reveal_strlit(" still running after kill.");
    reveal_strlit("still running after kill");
    let line = found_text(found, hosts, remaining);
    let begin = "Found "@;
    let words = "still running after kill"@;
    let end = " still running after kill."@;
    let middle = number::decimal(found) + (" process(es) on "@ + number::decimal(hosts) + (
    " host(s); "@ + number::decimal(remaining)));
    assert(end =~= seq![' '] + words + seq!['.']);
    let head = begin + middle + seq![' '];
    assert(line =~= head + words + seq!['.']);
    text::beginning_is_a_prefix(line, begin, middle + end);
    assert(line =~= begin + (middle + end));
    text::held_text_stands_between(line, head, words, seq!['.']);
    assert(line[0] == begin[0]);
}

#[verifier::spinoff_prover]
proof fn lemma_found_has_no_feed(found: nat, hosts: nat, remaining: nat)
    ensures
        forall|i: int|
            0 <= i < found_text(found, hosts, remaining).len() ==> #[trigger] found_text(
                found,
                hosts,
                remaining,
            )[i] != '\n',
{
    lemma_digits_are_ink(found);
    lemma_digits_are_ink(hosts);
    lemma_digits_are_ink(remaining);
    lemma_no_feed(" still running after kill."@);
    lemma_no_feed(" host(s); "@);
    lemma_no_feed(" process(es) on "@);
    lemma_no_feed("Found "@);
}

/// The numbers of a line that counts processes.
#[verifier::spinoff_prover]
proof fn lemma_found_numbers(found: usize, hosts: usize, remaining: usize)
    ensures
        ({
            let n = number::numbers(found_text(found as nat, hosts as nat, remaining as nat));
            n.len() >= 3 && n[0] == found && n[1] == hosts && n[2] == remaining
        }),
{
    reveal_strlit("Found ");
    reveal_strlit(" process(es) on ");
    reveal_strlit(" host(s); ");
    reveal_strlit(" still running after kill.");
    let f = number::decimal(found as nat);
    let h = number::decimal(hosts as nat);
    let r = number::decimal(remaining as nat);
    let end = " still running after kill."@;
    let third = " host(s); "@ + r + end;
    let second = " process(es) on "@ + h + third;
    number::decimal_reads_back(found as nat);
    number::decimal_reads_back(hosts as nat);
    number::decimal_reads_back(remaining as nat);
    number::lemma_numbers_first(" host(s); "@, r, end);
    number::lemma_numbers_first(" process(es) on "@, h, third);
    number::lemma_numbers_first("Found "@, f, second);
}

/// A literal of the counting lines has no line feed in it.
proof fn lemma_no_feed(s: Seq<char>)
    requires
        s == "Found "@ || s == " process(es) on "@ || s == " host(s); "@ || s
            == " still running after kill."@ || s == " host(s) clean, "@ || s == " unreachable"@,
    ensures
        forall|i: int| 0 <= i < s.len() ==> #[trigger] s[i] != '\n',
{
    reveal_strlit("Found ");
    reveal_strlit(" process(es) on ");
    reveal_strlit(" host(s); ");
    reveal_strlit(" still running after kill.");
    reveal_strlit(" host(s) clean, ");
    reveal_strlit(" unreachable");
}

#[verifier::spinoff_prover]
proof fn lemma_clean_text(clean: usize, unreachable: usize, rest: Seq<char>)
    ensures
        ({
            let line = text::trim(clean_text(clean as nat, unreachable as nat, rest));
            &&& clean_line(line)
            &&& !found_line(line)
            &&& number::numbers(line).len() >= 2
            &&& number::numbers(line)[0] == clean
            &&& number::numbers(line)[1] == unreachable
        }),
{
    let c = number::decimal(clean as nat);
    let u = number::decimal(unreachable as nat);
    let first = " host(s) clean, "@;
    let words = " unreachable"@;
    let left = text::trim_end(rest);
    let whole = clean_text(clean as nat, unreachable as nat, rest);
    reveal_strlit(" host(s) clean, ");
    reveal_strlit(" unreachable");
    number::decimal_reads_back(clean as nat);
    number::decimal_reads_back(unreachable as nat);
    let ink = c + first + u + words;
    let line = ink + left;
    assert(whole =~= ink + rest);
    assert(text::trim(whole) == line) by {
        lemma_digits_are_ink(clean as nat);
        assert(whole[0] == c[0]);
        text::lemma_next_is(whole, 0, text::Class::NonWhite, 0);
        assert(text::trim_start(whole) =~= whole);
        assert(ink.last() == words.last());
        text::lemma_trim_end_stops(ink, rest);
    }
    let tail = words + left;
    let second = first + u + tail;
    assert(line =~= Seq::<char>::empty() + c + second);
    assert(tail[0] == ' ');
    assert(second[0] == ' ');
    number::lemma_numbers_first(first, u, tail);
    number::lemma_numbers_first(Seq::<char>::empty(), c, second);
    assert(clean_line(line)) by {
        lemma_clean_words(c, u, left);
    }
    assert(!found_line(line)) by {
        reveal_strlit("Found ");
        assert(text::digit(c[0]));
        assert(line[0] == c[0]);
        if text::begins(line, "Found "@) {
            assert(line.subrange(0, 6)[0] == 'F');
        }
    }
}

/// A line that counts machines says so.
#[verifier::spinoff_prover]
proof fn lemma_clean_words(c: Seq<char>, u: Seq<char>, left: Seq<char>)
    ensures
        clean_line(c + " host(s) clean, "@ + u + " unreachable"@ + left),
{
    reveal_strlit(" host(s) clean, ");
    reveal_strlit("host(s) clean");
    reveal_strlit(" unreachable");
    reveal_strlit("unreachable");
    let line = c + " host(s) clean, "@ + u + " unreachable"@ + left;
    let head = c + seq![' '];
    let behind = seq![',', ' '] + u + " unreachable"@ + left;
    assert(" host(s) clean, "@ =~= seq![' '] + "host(s) clean"@ + seq![',', ' ']);
    assert(line =~= head + "host(s) clean"@ + behind);
    text::held_text_stands_between(line, head, "host(s) clean"@, behind);
    let prior = c + " host(s) clean, "@ + u + seq![' '];
    assert(" unreachable"@ =~= seq![' '] + "unreachable"@);
    assert(line =~= prior + "unreachable"@ + left);
    text::held_text_stands_between(line, prior, "unreachable"@, left);
}

/// The closing lines of a kill run are read as the numbers that they count,
/// whatever the run wrote before them, behind the last number, and below, as
/// long as no later line counts anew.
#[verifier::spinoff_prover]
pub proof fn closing_lines_are_read(
    prior: Seq<char>,
    found: usize,
    hosts: usize,
    remaining: usize,
    clean: usize,
    unreachable: usize,
    rest: Seq<char>,
    below: Seq<char>,
)
    requires
        prior.len() == 0 || prior.last() == '\n',
        forall|i: int| 0 <= i < rest.len() ==> #[trigger] rest[i] != '\n',
        below.len() == 0 || below[0] == '\n',
        forall|i: int|
            0 <= i < split::lines(below).len() ==> !counts(#[trigger] split::lines(below)[i]),
    ensures
        ({
            let report = prior + (found_text(found as nat, hosts as nat, remaining as nat).push(
                '\n',
            ) + (clean_text(clean as nat, unreachable as nat, rest) + below));
            kill_summary(report) == (KillSummary {
                found,
                hosts,
                remaining,
                clean,
                unreachable,
                auth_failed: text::has_text(report, "Permission denied"@),
            })
        }),
{
    let first = found_text(found as nat, hosts as nat, remaining as nat);
    let whole = clean_text(clean as nat, unreachable as nat, rest);
    let report = prior + (first.push('\n') + (whole + below));
    let auth = text::has_text(report, "Permission denied"@);
    let (last, more) = closing_parts(whole, below);
    lemma_report_lines(prior, found, hosts, remaining, clean, unreachable, rest, below);
    let earlier = split::lines(prior);
    lemma_counted(earlier, found, hosts, remaining, clean, unreachable, rest, below, auth);
    lemma_uncounted(earlier.push(first).push(last), more, auth);
}

/// The last counting line as it is read, and the lines below it.
spec fn closing_parts(whole: Seq<char>, below: Seq<char>) -> (Seq<char>, Seq<Seq<char>>) {
    if below.len() == 0 {
        (whole, Seq::empty())
    } else {
        (split::without_cr(whole), split::lines(below.skip(1)))
    }
}

/// The lines of a report that ends with the closing lines and what is below.
#[verifier::spinoff_prover]
proof fn lemma_report_lines(
    prior: Seq<char>,
    found: usize,
    hosts: usize,
    remaining: usize,
    clean: usize,
    unreachable: usize,
    rest: Seq<char>,
    below: Seq<char>,
)
    requires
        prior.len() == 0 || prior.last() == '\n',
        forall|i: int| 0 <= i < rest.len() ==> #[trigger] rest[i] != '\n',
        below.len() == 0 || below[0] == '\n',
        forall|i: int|
            0 <= i < split::lines(below).len() ==> !counts(#[trigger] split::lines(below)[i]),
    ensures
        ({
            let first = found_text(found as nat, hosts as nat, remaining as nat);
            let whole = clean_text(clean as nat, unreachable as nat, rest);
            let (last, more) = closing_parts(whole, below);
            &&& split::lines(prior + (first.push('\n') + (whole + below))) == split::lines(
                prior,
            ).push(first).push(last) + more
            &&& forall|i: int| 0 <= i < more.len() ==> !counts(#[trigger] more[i])
        }),
{
    let first = found_text(found as nat, hosts as nat, remaining as nat);
    let whole = clean_text(clean as nat, unreachable as nat, rest);
    let end = whole + below;
    let (last, more) = closing_parts(whole, below);
    lemma_found_text(found, hosts, remaining);
    split::lemma_lines_add(prior, first.push('\n') + end);
    assert(first.push('\n') + end =~= first + (seq!['\n'] + end));
    split::lemma_first_line(first, seq!['\n'] + end);
    assert((seq!['\n'] + end).skip(1) =~= end);
    lemma_clean_has_no_feed(clean as nat, unreachable as nat, rest);
    split::lemma_first_line(whole, below);
    assert(split::lines(end) =~= seq![last] + more);
    assert(split::lines(prior) + (seq![first] + (seq![last] + more)) =~= split::lines(prior).push(
        first,
    ).push(last) + more);
    assert forall|i: int| 0 <= i < more.len() implies !counts(#[trigger] more[i]) by {
        split::lemma_first_line(Seq::<char>::empty(), below);
        assert(Seq::<char>::empty() + below =~= below);
        assert(split::lines(below)[i + 1] == more[i]);
    }
}

/// What the lines up to the last counting one add up to.
#[verifier::spinoff_prover]
proof fn lemma_counted(
    earlier: Seq<Seq<char>>,
    found: usize,
    hosts: usize,
    remaining: usize,
    clean: usize,
    unreachable: usize,
    rest: Seq<char>,
    below: Seq<char>,
    auth_failed: bool,
)
    ensures
        ({
            let first = found_text(found as nat, hosts as nat, remaining as nat);
            let whole = clean_text(clean as nat, unreachable as nat, rest);
            read_lines(
                earlier.push(first).push(closing_parts(whole, below).0),
                auth_failed,
            ) == (KillSummary { found, hosts, remaining, clean, unreachable, auth_failed })
        }),
{
    let first = found_text(found as nat, hosts as nat, remaining as nat);
    let whole = clean_text(clean as nat, unreachable as nat, rest);
    let last = closing_parts(whole, below).0;
    let kept = if below.len() > 0 {
        split::without_cr(rest)
    } else {
        rest
    };
    assert(last =~= clean_text(clean as nat, unreachable as nat, kept)) by {
        reveal_strlit(" unreachable");
    }
    lemma_found_text(found, hosts, remaining);
    lemma_clean_text(clean, unreachable, kept);
    lemma_auth_kept(earlier, auth_failed);
    let both = earlier.push(first);
    assert(both.drop_last() =~= earlier);
    assert(read_lines(both, auth_failed) == read_line(read_lines(earlier, auth_failed), first));
    assert(both.push(last).drop_last() =~= both);
}

/// A line that counts something.
pub open spec fn counts(line: Seq<char>) -> bool {
    found_line(text::trim(line)) || clean_line(text::trim(line))
}

proof fn lemma_clean_has_no_feed(clean: nat, unreachable: nat, rest: Seq<char>)
    requires
        forall|i: int| 0 <= i < rest.len() ==> #[trigger] rest[i] != '\n',
    ensures
        clean_text(clean, unreachable, rest).len() > 0,
        forall|i: int|
            0 <= i < clean_text(clean, unreachable, rest).len() ==> #[trigger] clean_text(
                clean,
                unreachable,
                rest,
            )[i] != '\n',
{
    lemma_digits_are_ink(clean);
    lemma_digits_are_ink(unreachable);
    lemma_no_feed(" host(s) clean, "@);
    lemma_no_feed(" unreachable"@);
}

proof fn lemma_auth_kept(lines: Seq<Seq<char>>, auth_failed: bool)
    ensures
        read_lines(lines, auth_failed).auth_failed == auth_failed,
    decreases lines.len(),
{
    if lines.len() > 0 {
        lemma_auth_kept(lines.drop_last(), auth_failed);
    }
}

/// Lines that do not count leave the summary as it is.
proof fn lemma_uncounted(lines: Seq<Seq<char>>, more: Seq<Seq<char>>, auth_failed: bool)
    requires
        forall|i: int| 0 <= i < more.len() ==> !counts(#[trigger] more[i]),
    ensures
        read_lines(lines + more, auth_failed) == read_lines(lines, auth_failed),
    decreases more.len(),
{
    if more.len() == 0 {
        assert(lines + more =~= lines);
    } else {
        assert((lines + more).drop_last() =~= lines + more.drop_last());
        assert((lines + more).last() == more[more.len() - 1]);
        lemma_uncounted(lines, more.drop_last(), auth_failed);
    }
}

/// A kill run whose report counts nothing, as that of one that reached no
/// machine or could not run at all, does not look like a success.
pub proof fn silent_run_is_no_success(report: Seq<char>)
    requires
        forall|i: int|
            0 <= i < split::lines(report).len() ==> !counts(#[trigger] split::lines(report)[i]),
    ensures
        kill_notice(kill_summary(report)).1 == Tone::Danger,
{
    let auth = text::has_text(report, "Permission denied"@);
    let none = Seq::<Seq<char>>::empty();
    lemma_uncounted(none, split::lines(report), auth);
    assert(none + split::lines(report) =~= split::lines(report));
}

/// A host line in the report is found, whatever surrounds it.
pub proof fn host_block_is_found(prior: Seq<char>, line: Seq<char>, rest: Seq<char>)
    requires
        prior.len() == 0 || prior.last() == '\n',
        host_line(line),
        forall|i: int| 0 <= i < line.len() ==> #[trigger] line[i] != '\n',
        rest.len() == 0 || rest[0] == '\n',
    ensures
        lists_processes(prior + (line + rest)),
{
    reveal_strlit("process(es):");
    assert(line.len() > 0);
    split::lemma_lines_add(prior, line + rest);
    split::lemma_first_line(line, rest);
    lemma_host_line_without_cr(line);
    let all = split::lines(prior + (line + rest));
    let k = split::lines(prior).len() as int;
    assert(all[k] == if rest.len() == 0 {
        line
    } else {
        split::without_cr(line)
    });
    assert(host_line(all[k]));
}

proof fn lemma_host_line_without_cr(line: Seq<char>)
    requires
        host_line(line),
    ensures
        host_line(split::without_cr(line)),
{
    let cut = split::without_cr(line);
    if cut != line {
        reveal_strlit("[");
        reveal_strlit("process(es):");
        let p = "process(es):"@;
        let i = choose|i: int| text::occurs_at(line, p, i);
        assert(line.subrange(i, i + p.len())[p.len() - 1] == ':');
        assert(cut.subrange(i, i + p.len()) =~= line.subrange(i, i + p.len()));
        assert(text::occurs_at(cut, p, i));
        let b = text::next(line, 0, text::Class::NonWhite);
        text::lemma_next(line, 0, text::Class::NonWhite);
        assert(text::trim_start(line).subrange(0, 1)[0] == '[');
        assert(line[b] == '[');
        text::lemma_next_is(cut, 0, text::Class::NonWhite, b);
        assert(text::trim_start(cut).subrange(0, 1) =~= "["@);
    }
}

/// The report of a scan that listed anything does not hold the hint to kill.
pub proof fn scan_report_has_no_hint(stdout: Seq<char>, stderr: Seq<char>)
    requires
        text::trim(stdout).len() > 0,
    ensures
        !text::has_text(scan_text(stdout, stderr), KILL_HINT@),
{
    reveal_strlit("Re-run with 'kill'");
    text::lemma_find(stdout, KILL_HINT@);
    if let Some(at) = text::find(stdout, KILL_HINT@) {
        let cut = stdout.take(at);
        text::lemma_trim_end(cut);
        let n = text::trim_end(cut).len() as int;
        assert(cut.take(n) =~= stdout.take(n));
        if text::has_text(stdout.take(n), KILL_HINT@) {
            text::lemma_has_text_in_part(stdout, n, KILL_HINT@);
            let i = choose|i: int|
                text::occurs_at(stdout, KILL_HINT@, i) && i + KILL_HINT@.len() <= n;
            assert(i < at);
        }
    }
}

/// What a kill run says, by what it counted. It says that it killed something
/// where it found processes and left none, that it found nothing where it found
/// nothing on a machine that it reached, and what is wrong where something is.
pub proof fn kill_run_says_what_it_did(s: KillSummary)
    ensures
        !s.auth_failed && s.found > 0 && s.remaining == 0 ==> kill_notice(s) == (
            "Killed "@ + number::decimal(s.found as nat) + " process(es) on "@ + number::decimal(
                s.hosts as nat,
            ) + " machine(s) \u{2014} you can launch again"@,
            Tone::Success,
        ),
        !s.auth_failed && s.found > 0 && s.remaining > 0 ==> kill_notice(s) == (
            number::decimal(s.remaining as nat)
                + " process(es) still running after the kill \u{2014} see the report window"@,
            Tone::Danger,
        ),
        !s.auth_failed && s.found == 0 && s.clean > 0 ==> kill_notice(s) == (
            "No browser or Jupyter of yours found running on the analysis machines"@,
            Tone::Success,
        ),
        !s.auth_failed && s.found == 0 && s.clean == 0 ==> kill_notice(s) == (
            "No analysis machine could be reached \u{2014} see the report window"@,
            Tone::Danger,
        ),
        s.auth_failed ==> kill_notice(s) == (
            "Could not log into the analysis machines (SSH refused) \u{2014} see the report window"@,
            Tone::Danger,
        ),
{
}

/// The report of a kill run is all that it wrote, with all of its complaints
/// below, but for white space at their end.
pub proof fn kill_report_has_the_complaints_below(
    out: Seq<char>,
    err: Seq<char>,
    white: Seq<char>,
)
    requires
        forall|i: int| 0 <= i < white.len() ==> text::white_space(#[trigger] white[i]),
        err.len() > 0 ==> !text::white_space(err.last()),
    ensures
        err.len() == 0 ==> kill_text(out, err + white) == out,
        err.len() > 0 ==> kill_text(out, err + white) == out + "\n"@ + err,
{
    text::trimming_takes_off_white_space(white, Seq::empty(), Seq::empty());
    assert(white + Seq::<char>::empty() + Seq::<char>::empty() =~= white);
    if err.len() == 0 {
        assert(err + white =~= white);
    } else {
        lemma_trim_of_ink(err, white);
    }
}

/// Text with something else than white space in it does not trim to nothing,
/// and its end is trimmed up to that.
proof fn lemma_trim_of_ink(ink: Seq<char>, white: Seq<char>)
    requires
        ink.len() > 0,
        !text::white_space(ink.last()),
        forall|i: int| 0 <= i < white.len() ==> text::white_space(#[trigger] white[i]),
    ensures
        text::trim(ink + white).len() > 0,
        text::trim_end(ink + white) == ink,
{
    let s = ink + white;
    let b = text::next(s, 0, text::Class::NonWhite);
    text::lemma_next(s, 0, text::Class::NonWhite);
    assert(s[ink.len() - 1] == ink.last());
    assert(b <= ink.len() - 1) by {
        if b > ink.len() - 1 {
            assert(!text::in_class(text::Class::NonWhite, s[ink.len() - 1]));
        }
    }
    let left = ink.skip(b);
    assert(s.skip(b) =~= left + white);
    assert(left.last() == ink.last());
    text::lemma_trim_end_stops(left, white);
    text::lemma_trim_end_stops(ink, white);
    text::trimming_takes_off_white_space(Seq::empty(), Seq::empty(), white);
    assert(Seq::<char>::empty() + white =~= white);
    assert(ink + Seq::<char>::empty() =~= ink);
}

/// The report of a scan keeps everything above the hint, but for white space
/// before it. A listing without the hint is kept as it is, and where nothing is
/// listed the complaints are shown.
pub proof fn scan_report_keeps_the_listing(
    listing: Seq<char>,
    white: Seq<char>,
    rest: Seq<char>,
    stderr: Seq<char>,
)
    requires
        forall|i: int| 0 <= i < white.len() ==> text::white_space(#[trigger] white[i]),
        listing.len() > 0 ==> !text::white_space(listing.last()),
    ensures
        scan_text(white, stderr) == stderr,
        listing.len() > 0 && !text::has_text(listing + white, "Re-run with 'kill'"@) ==> scan_text(
            listing + white,
            stderr,
        ) == listing + white,
        !text::has_text(listing, "Re-run with 'kill'"@) ==> scan_text(
            listing + white + "Re-run with 'kill'"@ + rest,
            stderr,
        ) == listing,
{
    let hint = "Re-run with 'kill'"@;
    reveal_strlit("Re-run with 'kill'");
    text::trimming_takes_off_white_space(white, Seq::empty(), Seq::empty());
    assert(white + Seq::<char>::empty() + Seq::<char>::empty() =~= white);
    let head = listing + white;
    let s = head + hint + rest;
    if listing.len() > 0 && !text::has_text(head, hint) {
        lemma_trim_of_ink(listing, white);
        text::lemma_find(head, hint);
    }
    if !text::has_text(listing, hint) {
        assert forall|j: int| 0 <= j < head.len() implies !hint.is_prefix_of(
            #[trigger] s.skip(j),
        ) by {
            lemma_hint_stands_once(listing, white, rest, j);
        }
        text::leftmost_place_is_found(head, hint, rest, s);
        assert(s.take(head.len() as int) =~= head);
        if listing.len() > 0 {
            lemma_trim_of_ink(listing, white);
        } else {
            assert(head =~= white);
            text::trimming_takes_off_white_space(Seq::empty(), Seq::empty(), white);
            assert(Seq::<char>::empty() + white =~= white);
            assert(listing =~= Seq::empty());
        }
        assert(text::trim(s).len() > 0) by {
            let ink = head + hint;
            assert(ink.last() == '\'');
            lemma_some_ink(ink, rest);
        }
    }
}

/// Something else than white space is left by trimming.
proof fn lemma_some_ink(ink: Seq<char>, rest: Seq<char>)
    requires
        ink.len() > 0,
        !text::white_space(ink.last()),
    ensures
        text::trim(ink + rest).len() > 0,
{
    let s = ink + rest;
    let b = text::next(s, 0, text::Class::NonWhite);
    text::lemma_next(s, 0, text::Class::NonWhite);
    assert(s[ink.len() - 1] == ink.last());
    assert(b <= ink.len() - 1) by {
        if b > ink.len() - 1 {
            assert(!text::in_class(text::Class::NonWhite, s[ink.len() - 1]));
        }
    }
    let left = ink.skip(b);
    assert(s.skip(b) =~= left + rest);
    assert(left.last() == ink.last());
    text::lemma_trim_end_stops(left, rest);
}

/// The hint does not begin anywhere before white space that it stands behind,
/// where the text before holds none.
proof fn lemma_hint_stands_once(listing: Seq<char>, white: Seq<char>, rest: Seq<char>, j: int)
    requires
        !text::has_text(listing, "Re-run with 'kill'"@),
        forall|i: int| 0 <= i < white.len() ==> text::white_space(#[trigger] white[i]),
        0 <= j < listing.len() + white.len(),
        listing.len() > 0 ==> !text::white_space(listing.last()),
    ensures
        !"Re-run with 'kill'"@.is_prefix_of(
            (listing + white + "Re-run with 'kill'"@ + rest).skip(j),
        ),
{
    let hint = "Re-run with 'kill'"@;
    reveal_strlit("Re-run with 'kill'");
    let s = listing + white + hint + rest;
    let k = s.skip(j);
    let l = listing.len() as int;
    if hint.is_prefix_of(k) {
        assert(forall|i: int| 0 <= i < 18 ==> #[trigger] hint[i] == k[i]) by {
            assert(k.subrange(0, 18) =~= hint);
            assert forall|i: int| 0 <= i < 18 implies #[trigger] hint[i] == k[i] by {
                assert(k.subrange(0, 18)[i] == k[i]);
            }
        }
        if j + 18 <= l {
            assert(listing.subrange(j, j + 18) =~= hint) by {
                assert forall|i: int| 0 <= i < 18 implies listing.subrange(j, j + 18)[i] == hint[i] by {
                    assert(hint[i] == k[i]);
                    assert(k[i] == s[j + i]);
                }
            }
            assert(text::occurs_at(listing, hint, j));
        } else {
            // What would lie over the place of the hint does not fit on it.
            assert(hint[0] == 'R' && hint[1] == 'e' && hint[2] == '-');
            assert(k[0] == 'R');
            if j >= l {
                assert(s[j] == white[j - l]);
                assert(k[0] == s[j]);
            } else {
                let w = l - j;
                assert(0 < w < 18);
                if white.len() > 0 {
                    assert(s[l] == white[0]);
                    assert(k[w] == s[l]);
                    assert(hint[w] == k[w]);
                    // White space stands in the hint behind "Re-run" and "with".
                    assert(w == 6 || w == 11);
                    if white.len() > 1 {
                        assert(s[l + 1] == white[1]);
                        assert(k[w + 1] == s[l + 1]);
                        assert(hint[w + 1] == k[w + 1]);
                    } else {
                        assert(s[l + 1] == hint[0]);
                        assert(k[w + 1] == s[l + 1]);
                        assert(hint[w + 1] == k[w + 1]);
                    }
                } else {
                    assert(s[l] == hint[0]);
                    assert(k[w] == s[l]);
                    assert(hint[w] == k[w]);
                }
            }
        }
    }
}

/// A report with a line `[` ... `process(es):` in it, behind white space or not.
pub open spec fn host_report(
    prior: Seq<char>,
    lead: Seq<char>,
    a: Seq<char>,
    b: Seq<char>,
    rest: Seq<char>,
) -> Seq<char> {
    prior + (lead + "["@ + a + "process(es):"@ + b + rest)
}

/// The parts of such a report make a line of it.
pub open spec fn is_one_line(
    prior: Seq<char>,
    lead: Seq<char>,
    a: Seq<char>,
    b: Seq<char>,
    rest: Seq<char>,
) -> bool {
    &&& prior.len() == 0 || prior.last() == '\n'
    &&& forall|i: int|
        0 <= i < lead.len() ==> text::white_space(#[trigger] lead[i]) && lead[i] != '\n'
    &&& forall|i: int| 0 <= i < a.len() ==> #[trigger] a[i] != '\n'
    &&& forall|i: int| 0 <= i < b.len() ==> #[trigger] b[i] != '\n'
    &&& rest.len() == 0 || rest[0] == '\n'
}

/// Processes are found exactly where some line of the report opens with `[` and
/// holds `process(es):`, whatever else stands in it and around it.
pub proof fn host_lines_are_what_is_found(
    prior: Seq<char>,
    lead: Seq<char>,
    a: Seq<char>,
    b: Seq<char>,
    rest: Seq<char>,
    report: Seq<char>,
)
    ensures
        is_one_line(prior, lead, a, b, rest) ==> lists_processes(
            host_report(prior, lead, a, b, rest),
        ),
        lists_processes(report) ==> exists|
            p: Seq<char>,
            l: Seq<char>,
            x: Seq<char>,
            y: Seq<char>,
            r: Seq<char>,
        | is_one_line(p, l, x, y, r) && report == #[trigger] host_report(p, l, x, y, r),
{
    if is_one_line(prior, lead, a, b, rest) {
        lemma_host_line_shape(lead, a, b);
        let line = lead + "["@ + a + "process(es):"@ + b;
        reveal_strlit("[");
        reveal_strlit("process(es):");
        assert forall|i: int| 0 <= i < line.len() implies #[trigger] line[i] != '\n' by {
            lemma_no_feed_in_host_words();
        }
        host_block_is_found(prior, line, rest);
        assert(host_report(prior, lead, a, b, rest) =~= prior + (line + rest));
    }
    if lists_processes(report) {
        let parts = lemma_found_host(report);
    }
}

proof fn lemma_no_feed_in_host_words()
    ensures
        forall|i: int| 0 <= i < "["@.len() ==> #[trigger] "["@[i] != '\n',
        forall|i: int| 0 <= i < "process(es):"@.len() ==> #[trigger] "process(es):"@[i] != '\n',
{
    reveal_strlit("[");
    reveal_strlit("process(es):");
}

/// A line of this shape is a host line.
proof fn lemma_host_line_shape(lead: Seq<char>, a: Seq<char>, b: Seq<char>)
    requires
        forall|i: int| 0 <= i < lead.len() ==> text::white_space(#[trigger] lead[i]),
    ensures
        host_line(lead + "["@ + a + "process(es):"@ + b),
{
    let line = lead + "["@ + a + "process(es):"@ + b;
    reveal_strlit("[");
    let k = lead.len() as int;
    assert forall|i: int| 0 <= i < k implies !text::in_class(
        text::Class::NonWhite,
        #[trigger] line[i],
    ) by {
        assert(line[i] == lead[i]);
    }
    assert(line[k] == '[');
    text::lemma_next_is(line, 0, text::Class::NonWhite, k);
    assert(text::trim_start(line).subrange(0, 1) =~= "["@);
    text::held_text_stands_between(line, lead + "["@ + a, "process(es):"@, b);
}

/// A host line has this shape.
proof fn lemma_host_line_parts(line: Seq<char>) -> (parts: (Seq<char>, Seq<char>, Seq<char>))
    requires
        host_line(line),
    ensures
        line == parts.0 + "["@ + parts.1 + "process(es):"@ + parts.2,
        forall|i: int| 0 <= i < parts.0.len() ==> text::white_space(#[trigger] parts.0[i]),
{
    reveal_strlit("[");
    reveal_strlit("process(es):");
    let p = "process(es):"@;
    let k = text::next(line, 0, text::Class::NonWhite);
    text::lemma_next(line, 0, text::Class::NonWhite);
    assert(text::trim_start(line).subrange(0, 1)[0] == '[');
    assert(line[k] == '[');
    let at = choose|i: int| text::occurs_at(line, p, i);
    assert(line.subrange(at, at + 12)[0] == 'p');
    assert(line[at] == 'p');
    assert(!text::white_space('p'));
    assert(at > k) by {
        if at < k {
            assert(!text::in_class(text::Class::NonWhite, line[at]));
        }
    }
    let lead = line.take(k);
    let a = line.subrange(k + 1, at);
    let b = line.skip(at + 12);
    assert(line =~= lead + "["@ + a + p + b) by {
        assert(line =~= lead + seq![line[k]] + a + line.subrange(at, at + 12) + b);
        assert(seq![line[k]] =~= "["@);
    }
    assert forall|i: int| 0 <= i < lead.len() implies text::white_space(#[trigger] lead[i]) by {
        assert(lead[i] == line[i]);
        assert(!text::in_class(text::Class::NonWhite, line[i]));
    }
    (lead, a, b)
}

/// Where a report lists processes, it has a line of this shape.
proof fn lemma_found_host(report: Seq<char>) -> (parts: (
    Seq<char>,
    Seq<char>,
    Seq<char>,
    Seq<char>,
    Seq<char>,
))
    requires
        lists_processes(report),
    ensures
        is_one_line(parts.0, parts.1, parts.2, parts.3, parts.4),
        report == host_report(parts.0, parts.1, parts.2, parts.3, parts.4),
    decreases report.len(),
{
    let e = text::next(report, 0, text::Class::LineFeed);
    text::lemma_next(report, 0, text::Class::LineFeed);
    let all = split::lines(report);
    let i = choose|i: int| 0 <= i < all.len() && host_line(#[trigger] all[i]);
    let raw = report.take(e);
    let rest = report.skip(e);
    let none = Seq::<char>::empty();
    assert(raw + rest =~= report);
    assert forall|n: int| 0 <= n < raw.len() implies #[trigger] raw[n] != '\n' by {
        assert(!text::in_class(text::Class::LineFeed, report[n]));
    }
    if rest.len() > 0 {
        assert(rest[0] == report[e]);
    }
    if report.len() > 0 {
        split::lemma_first_line(raw, rest);
    }
    if i == 0 {
        let (lead, a, b) = lemma_host_line_parts(all[0]);
        let tail = raw.skip(all[0].len() as int);
        assert(raw =~= all[0] + tail);
        let last = b + tail;
        reveal_strlit("[");
        assert(raw =~= lead + "["@ + a + "process(es):"@ + last);
        assert forall|n: int| 0 <= n < lead.len() implies text::white_space(#[trigger] lead[n])
            && lead[n] != '\n' by {
            assert(raw[n] == lead[n]);
        }
        assert forall|n: int| 0 <= n < a.len() implies #[trigger] a[n] != '\n' by {
            assert(raw[lead.len() + 1 + n] == a[n]);
        }
        assert forall|n: int| 0 <= n < last.len() implies #[trigger] last[n] != '\n' by {
            assert(raw[raw.len() - last.len() + n] == last[n]);
        }
        assert(host_report(none, lead, a, last, rest) =~= raw + rest);
        (none, lead, a, last, rest)
    } else {
        let more = rest.skip(1);
        assert(split::lines(more)[i - 1] == all[i]);
        let (p, l, a, b, r) = lemma_found_host(more);
        let prior = raw.push('\n') + p;
        assert(report =~= raw.push('\n') + more);
        assert(host_report(prior, l, a, b, r) =~= raw.push('\n') + host_report(p, l, a, b, r));
        (prior, l, a, b, r)
    }
}

/// Trimming takes a carriage return off anyway.
proof fn lemma_trim_without_cr(s: Seq<char>)
    ensures
        text::trim(split::without_cr(s)) == text::trim(s),
{
    let c = split::without_cr(s);
    if c != s {
        assert(s =~= c.push('\r'));
        let b = text::next(c, 0, text::Class::NonWhite);
        text::lemma_next(c, 0, text::Class::NonWhite);
        assert forall|i: int| 0 <= i < b implies !text::in_class(
            text::Class::NonWhite,
            #[trigger] s[i],
        ) by {
            assert(s[i] == c[i]);
        }
        if b < c.len() {
            text::lemma_next_is(s, 0, text::Class::NonWhite, b);
            assert(s.skip(b).drop_last() =~= c.skip(b));
        } else {
            text::lemma_next_is(s, 0, text::Class::NonWhite, s.len() as int);
            assert(s.skip(s.len() as int) =~= c.skip(b));
        }
    }
}

/// How the lines of a report are read that has `line` behind `prior` and
/// `below` behind that.
proof fn lemma_lines_around(prior: Seq<char>, line: Seq<char>, below: Seq<char>) -> (parts: (
    Seq<char>,
    Seq<Seq<char>>,
))
    requires
        prior.len() == 0 || prior.last() == '\n',
        line.len() > 0,
        forall|i: int| 0 <= i < line.len() ==> #[trigger] line[i] != '\n',
        below.len() == 0 || below[0] == '\n',
    ensures
        split::lines(prior + (line + below)) == split::lines(prior).push(parts.0) + parts.1,
        text::trim(parts.0) == text::trim(line),
        forall|i: int|
            0 <= i < parts.1.len() ==> split::lines(below).contains(#[trigger] parts.1[i]),
{
    split::lemma_lines_add(prior, line + below);
    split::lemma_first_line(line, below);
    lemma_trim_without_cr(line);
    let (last, more) = closing_parts(line, below);
    assert(split::lines(prior) + (seq![last] + more) =~= split::lines(prior).push(last) + more);
    assert(split::lines(line + below) =~= seq![last] + more);
    assert forall|i: int| 0 <= i < more.len() implies split::lines(below).contains(
        #[trigger] more[i],
    ) by {
        split::lemma_first_line(Seq::<char>::empty(), below);
        assert(Seq::<char>::empty() + below =~= below);
        assert(split::lines(below)[i + 1] == more[i]);
    }
    (last, more)
}

proof fn lemma_found_kept(lines: Seq<Seq<char>>, more: Seq<Seq<char>>, auth_failed: bool)
    requires
        forall|i: int| 0 <= i < more.len() ==> !found_line(text::trim(#[trigger] more[i])),
    ensures
        read_lines(lines + more, auth_failed).found == read_lines(lines, auth_failed).found,
        read_lines(lines + more, auth_failed).hosts == read_lines(lines, auth_failed).hosts,
        read_lines(lines + more, auth_failed).remaining == read_lines(lines, auth_failed).remaining,
    decreases more.len(),
{
    if more.len() == 0 {
        assert(lines + more =~= lines);
    } else {
        assert((lines + more).drop_last() =~= lines + more.drop_last());
        assert((lines + more).last() == more[more.len() - 1]);
        lemma_found_kept(lines, more.drop_last(), auth_failed);
    }
}

proof fn lemma_clean_kept(lines: Seq<Seq<char>>, more: Seq<Seq<char>>, auth_failed: bool)
    requires
        forall|i: int|
            0 <= i < more.len() ==> found_line(text::trim(#[trigger] more[i])) || !clean_line(
                text::trim(more[i]),
            ),
    ensures
        read_lines(lines + more, auth_failed).clean == read_lines(lines, auth_failed).clean,
        read_lines(lines + more, auth_failed).unreachable == read_lines(
            lines,
            auth_failed,
        ).unreachable,
    decreases more.len(),
{
    if more.len() == 0 {
        assert(lines + more =~= lines);
    } else {
        assert((lines + more).drop_last() =~= lines + more.drop_last());
        assert((lines + more).last() == more[more.len() - 1]);
        lemma_clean_kept(lines, more.drop_last(), auth_failed);
    }
}

/// The text is that of a line that counts processes.
pub open spec fn says_found(s: Seq<char>) -> bool {
    "Found "@.is_prefix_of(s) && text::has_text(s, "still running after kill"@)
}

/// The text is that of a line that counts machines.
pub open spec fn says_clean(s: Seq<char>) -> bool {
    text::has_text(s, "host(s) clean"@) && text::has_text(s, "unreachable"@)
}

/// The processes are the first three numbers of the last line that begins with
/// `Found ` and says what is still running, whatever else the report holds. A
/// number that is missing counts as zero.
pub proof fn last_found_line_counts(prior: Seq<char>, line: Seq<char>, below: Seq<char>)
    requires
        prior.len() == 0 || prior.last() == '\n',
        forall|i: int| 0 <= i < line.len() ==> #[trigger] line[i] != '\n',
        below.len() == 0 || below[0] == '\n',
        says_found(text::trim(line)),
        forall|i: int|
            0 <= i < split::lines(below).len() ==> !says_found(
                text::trim(#[trigger] split::lines(below)[i]),
            ),
    ensures
        ({
            let s = kill_summary(prior + (line + below));
            let n = number::numbers(text::trim(line));
            &&& s.found == if n.len() > 0 { n[0] } else { 0 }
            &&& s.hosts == if n.len() > 1 { n[1] } else { 0 }
            &&& s.remaining == if n.len() > 2 { n[2] } else { 0 }
        }),
{
    reveal_strlit("Found ");
    assert(line.len() > 0) by {
        if line.len() == 0 {
            text::trimming_takes_off_white_space(line, Seq::empty(), Seq::empty());
            assert(line + Seq::<char>::empty() + Seq::<char>::empty() =~= line);
        }
    }
    let report = prior + (line + below);
    let auth = text::has_text(report, "Permission denied"@);
    let (last, more) = lemma_lines_around(prior, line, below);
    let counted = split::lines(prior).push(last);
    assert forall|i: int| 0 <= i < more.len() implies !found_line(
        text::trim(#[trigger] more[i]),
    ) by {
        let k = choose|k: int| 0 <= k < split::lines(below).len() && split::lines(below)[k] == more[i];
        assert(!says_found(text::trim(split::lines(below)[k])));
    }
    lemma_found_kept(counted, more, auth);
    assert(counted.drop_last() =~= split::lines(prior));
}

/// The machines are the first two numbers of the last line that says which are
/// clean and which unreachable, and that is not one that counts processes.
pub proof fn last_clean_line_counts(prior: Seq<char>, line: Seq<char>, below: Seq<char>)
    requires
        prior.len() == 0 || prior.last() == '\n',
        forall|i: int| 0 <= i < line.len() ==> #[trigger] line[i] != '\n',
        below.len() == 0 || below[0] == '\n',
        says_clean(text::trim(line)),
        !says_found(text::trim(line)),
        forall|i: int|
            0 <= i < split::lines(below).len() ==> says_found(
                text::trim(#[trigger] split::lines(below)[i]),
            ) || !says_clean(text::trim(split::lines(below)[i])),
    ensures
        ({
            let s = kill_summary(prior + (line + below));
            let n = number::numbers(text::trim(line));
            &&& s.clean == if n.len() > 0 { n[0] } else { 0 }
            &&& s.unreachable == if n.len() > 1 { n[1] } else { 0 }
        }),
{
    reveal_strlit("unreachable");
    assert(line.len() > 0) by {
        if line.len() == 0 {
            text::trimming_takes_off_white_space(line, Seq::empty(), Seq::empty());
            assert(line + Seq::<char>::empty() + Seq::<char>::empty() =~= line);
        }
    }
    let report = prior + (line + below);
    let auth = text::has_text(report, "Permission denied"@);
    let (last, more) = lemma_lines_around(prior, line, below);
    let counted = split::lines(prior).push(last);
    assert forall|i: int| 0 <= i < more.len() implies found_line(text::trim(#[trigger] more[i]))
        || !clean_line(text::trim(more[i])) by {
        let k = choose|k: int| 0 <= k < split::lines(below).len() && split::lines(below)[k] == more[i];
        assert(says_found(text::trim(split::lines(below)[k])) || !says_clean(
            text::trim(split::lines(below)[k]),
        ));
    }
    lemma_clean_kept(counted, more, auth);
    assert(counted.drop_last() =~= split::lines(prior));
}

/// Without such lines nothing is counted. A refused login is seen wherever the
/// report says `Permission denied`.
pub proof fn uncounted_is_zero(report: Seq<char>)
    ensures
        kill_summary(report).auth_failed <==> text::has_text(report, "Permission denied"@),
        (forall|i: int|
            0 <= i < split::lines(report).len() ==> !says_found(
                text::trim(#[trigger] split::lines(report)[i]),
            )) ==> {
            let s = kill_summary(report);
            s.found == 0 && s.hosts == 0 && s.remaining == 0
        },
        (forall|i: int|
            0 <= i < split::lines(report).len() ==> says_found(
                text::trim(#[trigger] split::lines(report)[i]),
            ) || !says_clean(text::trim(split::lines(report)[i]))) ==> {
            let s = kill_summary(report);
            s.clean == 0 && s.unreachable == 0
        },
{
    let all = split::lines(report);
    let none = Seq::<Seq<char>>::empty();
    let auth = text::has_text(report, "Permission denied"@);
    assert(none + all =~= all);
    lemma_auth_kept(all, auth);
    if forall|i: int| 0 <= i < all.len() ==> !says_found(text::trim(#[trigger] all[i])) {
        assert forall|i: int| 0 <= i < all.len() implies !found_line(
            text::trim(#[trigger] all[i]),
        ) by {
            assert(!says_found(text::trim(all[i])));
        }
        lemma_found_kept(none, all, auth);
    }
    if forall|i: int|
        0 <= i < all.len() ==> says_found(text::trim(#[trigger] all[i])) || !says_clean(
            text::trim(all[i]),
        ) {
        assert forall|i: int| 0 <= i < all.len() implies found_line(text::trim(#[trigger] all[i]))
            || !clean_line(text::trim(all[i])) by {
            assert(says_found(text::trim(all[i])) || !says_clean(text::trim(all[i])));
        }
        lemma_clean_kept(none, all, auth);
    }
}

} // verus!

//! Following a launched notebook: its output names the address to open, and the
//! browser that opens it can fail.
use crate::command;
use crate::command::{with_argument, Invocation};
use crate::paths;
use crate::text;
use crate::text::{chars_of, find_in, next_in, text_of, Class};
use vstd::prelude::*;
use vstd::slice::slice_subrange;
use vstd::string::*;

verus! {

/// The address that a line names: from the first `http://` up to white space.
pub open spec fn address(line: Seq<char>) -> Option<Seq<char>> {
    match text::find(line, "http://"@) {
        Some(at) => Some(line.subrange(at, text::next(line, at, Class::White))),
        None => None,
    }
}

/// The address that a line of output names.
pub fn address_in(line: &str) -> (res: Option<String>)
    ensures
        text::text_view(res) == address(line@),
{
    let chars = chars_of(line);
    match find_in(chars.as_slice(), "http://") {
        Some(at) => {
            let end: usize = next_in(chars.as_slice(), at, Class::White);
            Some(text_of(slice_subrange(chars.as_slice(), at, end)))
        },
        None => None,
    }
}

/// Watches one output stream of a notebook.
#[derive(Debug)]
pub struct OutputWatch {
    /// Whether an address of this stream has been opened.
    pub opened: bool,
}

impl OutputWatch {
    pub fn new() -> (res: OutputWatch)
        ensures
            !res.opened,
    {
        OutputWatch { opened: false }
    }

    /// Reads one more line, and says which address to open. Only the first
    /// address of a stream is opened.
    pub fn read(&mut self, line: &str) -> (res: Option<String>)
        ensures
            old(self).opened ==> res is None && final(self).opened,
            !old(self).opened ==> text::text_view(res) == address(line@) && final(self).opened
                == (res is Some),
    {
        if self.opened {
            return None;
        }
        let found = address_in(line);
        self.opened = found.is_some();
        found
    }
}

/// How an address is opened.
pub fn open_command(address: &str) -> (res: Invocation)
    ensures
        res@ == command::plain("firefox"@, seq![paths::bytes(address@)]),
{
    with_argument("firefox", address)
}

/// What a browser that exited says: `success` is how it exited, where that is
/// known.
pub fn browser_exit(success: Option<bool>) -> (res: Option<String>)
    ensures
        text::text_view(res) == (if success == Some(false) {
            Some("Firefox could not open the notebook"@)
        } else {
            None
        }),
{
    match success {
        Some(ok) => if ok {
            None
        } else {
            Some("Firefox could not open the notebook".to_owned())
        },
        None => None,
    }
}

/// What is said of a browser that could not start.
pub fn browser_not_started(reason: &str) -> (res: String)
    ensures
        res@ == "Could not start firefox: "@ + reason@,
{
    "Could not start firefox: ".to_owned().concat(reason)
}

/// An address begins with `http://` and has no white space in it.
pub proof fn address_is_one_word(line: Seq<char>)
    requires
        address(line) is Some,
    ensures
        text::begins(address(line)->0, "http://"@),
        forall|i: int|
            0 <= i < address(line)->0.len() ==> !text::white_space(#[trigger] address(line)->0[i]),
{
    reveal_strlit("http://");
    let p = "http://"@;
    text::lemma_find(line, p);
    let at = text::find(line, p)->0;
    let end = text::next(line, at, Class::White);
    text::lemma_next(line, at, Class::White);
    assert forall|i: int| 0 <= i < p.len() implies !text::white_space(#[trigger] p[i]) by {
        assert(p[i] == 'h' || p[i] == 't' || p[i] == 'p' || p[i] == ':' || p[i] == '/');
    }
    assert(end >= at + p.len()) by {
        if end < at + p.len() {
            assert(line[end] == line.subrange(at, at + p.len())[end - at]);
        }
    }
    let found = line.subrange(at, end);
    assert(found.subrange(0, p.len() as int) =~= line.subrange(at, at + p.len()));
}

/// The address runs up to white space or the end of the line: behind text that
/// does not name one, the first word that begins with `http://` is the address,
/// all of it.
pub proof fn address_is_the_whole_word(prior: Seq<char>, word: Seq<char>, rest: Seq<char>)
    requires
        forall|j: int|
            0 <= j < prior.len() ==> !"http://"@.is_prefix_of(
                #[trigger] (prior + word + rest).skip(j),
            ),
        "http://"@.is_prefix_of(word),
        forall|i: int| 0 <= i < word.len() ==> !text::white_space(#[trigger] word[i]),
        rest.len() > 0 ==> text::white_space(rest[0]),
    ensures
        address(prior + word + rest) == Some(word),
{
    let p = "http://"@;
    let line = prior + word + rest;
    let at = prior.len() as int;
    let tail = word.skip(p.len() as int) + rest;
    assert(word =~= p + word.skip(p.len() as int));
    assert(line =~= prior + p + tail);
    text::leftmost_place_is_found(prior, p, tail, line);
    let end = at + word.len();
    assert forall|i: int| at <= i < end implies !text::in_class(Class::White, #[trigger] line[i]) by {
        assert(line[i] == word[i - at]);
    }
    if rest.len() > 0 {
        assert(line[end] == rest[0]);
    }
    text::lemma_next_is(line, at, Class::White, end);
    assert(line.subrange(at, end) =~= word);
}

/// A line names an address exactly where it holds `http://`. The address stands
/// there, and what is behind it is white space or the end of the line.
pub proof fn address_stands_in_the_line(line: Seq<char>)
    ensures
        address(line) is Some <==> text::has_text(line, "http://"@),
        address(line) matches Some(a) ==> exists|prior: Seq<char>, rest: Seq<char>|
            {
                &&& line == #[trigger] (prior + a + rest)
                &&& (rest.len() > 0 ==> text::white_space(rest[0]))
                &&& !text::has_text(prior + a.take(6), "http://"@)
                &&& "http://"@.is_prefix_of(a)
            },
{
    let p = "http://"@;
    text::lemma_find(line, p);
    if let Some(a) = address(line) {
        address_is_one_word(line);
        let at = text::find(line, p)->0;
        let end = text::next(line, at, Class::White);
        text::lemma_next(line, at, Class::White);
        let prior = line.take(at);
        let rest = line.skip(end);
        assert(line =~= prior + a + rest);
        reveal_strlit("http://");
        if rest.len() > 0 {
            assert(rest[0] == line[end]);
        }
        let head = prior + a.take(6);
        assert(head =~= line.take(at + 6));
        if text::has_text(head, p) {
            text::lemma_has_text_in_part(line, at + 6, p);
            let i = choose|i: int| text::occurs_at(line, p, i) && i + p.len() <= at + 6;
            assert(i < at);
        }
        assert(a.subrange(0, p.len() as int) == p);
    }
}

} // verus!

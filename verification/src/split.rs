//! Cutting text into lines, into words, and at a separator.
use crate::text;
use crate::text::{find_in, next_in, Class};
use vstd::prelude::*;
use vstd::slice::slice_subrange;

verus! {

// --------------------------------------------------------------------- lines

/// A line without the carriage return that belongs to its line ending.
pub open spec fn without_cr(line: Seq<char>) -> Seq<char> {
    if line.len() > 0 && line.last() == '\r' {
        line.drop_last()
    } else {
        line
    }
}

/// The lines of `s`: each ends at a line feed, or at a carriage return and a
/// line feed; the ending of the last line may be missing.
pub open spec fn lines(s: Seq<char>) -> Seq<Seq<char>>
    decreases s.len(),
{
    let e = text::next(s, 0, Class::LineFeed);
    if s.len() == 0 {
        seq![]
    } else if e < 0 || e >= s.len() {
        seq![s]
    } else {
        seq![without_cr(s.take(e))] + lines(s.skip(e + 1))
    }
}

pub fn lines_of<'a>(s: &'a [char]) -> (res: Vec<&'a [char]>)
    ensures
        text::pieces(res@) == lines(s@),
{
    let mut res: Vec<&'a [char]> = Vec::new();
    let n: usize = s.len();
    let mut at: usize = 0;
    assert(s@.skip(0) == s@);
    assert(text::pieces(res@) =~= seq![]);
    while at < n
        invariant
            at <= n,
            n == s@.len(),
            text::pieces(res@) + lines(s@.skip(at as int)) == lines(s@),
        decreases n - at,
    {
        let rest = slice_subrange(s, at, n);
        assert(rest@ == s@.skip(at as int));
        let e: usize = next_in(rest, 0, Class::LineFeed);
        let ghost before = res@;
        if e == rest.len() {
            res.push(rest);
            assert(text::pieces(res@) =~= text::pieces(before).push(rest@));
            assert(text::pieces(before) + seq![rest@] =~= text::pieces(res@));
            return res;
        }
        let end: usize = if e > 0 && rest[e - 1] == '\r' {
            e - 1
        } else {
            e
        };
        let line = slice_subrange(rest, 0, end);
        assert(line@ =~= without_cr(rest@.take(e as int)));
        res.push(line);
        proof {
            assert(text::pieces(res@) =~= text::pieces(before).push(line@));
            assert(rest@.skip(e + 1) =~= s@.skip(at + e + 1));
            assert(text::pieces(before) + (seq![line@] + lines(s@.skip(at + e + 1))) =~= text::pieces(res@)
                + lines(s@.skip(at + e + 1)));
        }
        at = at + e + 1;
    }
    assert(lines(s@.skip(n as int)) =~= seq![]);
    assert(text::pieces(res@) + seq![] =~= text::pieces(res@));
    res
}

// --------------------------------------------------------------------- words

/// The words of `s`: its longest runs without white space.
pub open spec fn words(s: Seq<char>) -> Seq<Seq<char>>
    decreases s.len(),
    via words_decreases
{
    let b = text::next(s, 0, Class::NonWhite);
    let e = text::next(s, b, Class::White);
    if b >= s.len() {
        seq![]
    } else {
        seq![s.subrange(b, e)] + words(s.skip(e))
    }
}

#[via_fn]
proof fn words_decreases(s: Seq<char>) {
    let b = text::next(s, 0, Class::NonWhite);
    text::lemma_next(s, 0, Class::NonWhite);
    if b < s.len() {
        text::lemma_next(s, b + 1, Class::White);
        text::lemma_next(s, b, Class::White);
    }
}

pub fn words_of<'a>(s: &'a [char]) -> (res: Vec<&'a [char]>)
    ensures
        text::pieces(res@) == words(s@),
{
    let mut res: Vec<&'a [char]> = Vec::new();
    let n: usize = s.len();
    let mut at: usize = 0;
    assert(s@.skip(0) == s@);
    assert(text::pieces(res@) + words(s@) =~= words(s@));
    loop
        invariant
            at <= n,
            n == s@.len(),
            text::pieces(res@) + words(s@.skip(at as int)) == words(s@),
        decreases n - at,
    {
        let rest = slice_subrange(s, at, n);
        assert(rest@ == s@.skip(at as int));
        let b: usize = next_in(rest, 0, Class::NonWhite);
        if b == rest.len() {
            assert(text::pieces(res@) + seq![] =~= text::pieces(res@));
            return res;
        }
        let e: usize = next_in(rest, b, Class::White);
        proof {
            text::lemma_next(rest@, 0, Class::NonWhite);
            text::lemma_next(rest@, b as int, Class::White);
        }
        let ghost before = res@;
        let word = slice_subrange(rest, b, e);
        res.push(word);
        proof {
            assert(text::pieces(res@) =~= text::pieces(before).push(word@));
            assert(rest@.skip(e as int) =~= s@.skip(at + e));
            assert(text::pieces(before) + (seq![word@] + words(s@.skip(at + e))) =~= text::pieces(res@) + words(
                s@.skip(at + e),
            ));
        }
        at = at + e;
    }
}

// ------------------------------------------------------------ at a separator

/// The text before and after the first place at which `p` stands in `s`.
pub open spec fn split_once(s: Seq<char>, p: Seq<char>) -> Option<(Seq<char>, Seq<char>)> {
    match text::find(s, p) {
        Some(i) => Some((s.take(i), s.skip(i + p.len()))),
        None => None,
    }
}

pub fn split_at_first<'a>(s: &'a [char], p: &str) -> (res: Option<(&'a [char], &'a [char])>)
    ensures
        match res {
            Some((head, tail)) => split_once(s@, p@) == Some((head@, tail@)),
            None => split_once(s@, p@) is None,
        },
{
    match find_in(s, p) {
        Some(i) => {
            let n: usize = s.len();
            let skip: usize = p.unicode_len();
            let head = slice_subrange(s, 0, i);
            let tail = slice_subrange(s, i + skip, n);
            assert(head@ =~= s@.take(i as int));
            assert(tail@ =~= s@.skip(i + skip));
            Some((head, tail))
        },
        None => None,
    }
}

// --------------------------------------------------------- facts about lines

/// Text that begins a new line adds its lines to those before it.
pub proof fn lemma_lines_add(head: Seq<char>, tail: Seq<char>)
    requires
        head.len() == 0 || head.last() == '\n',
    ensures
        lines(head + tail) == lines(head) + lines(tail),
    decreases head.len(),
{
    let s = head + tail;
    if head.len() == 0 {
        assert(s =~= tail);
        assert(lines(head) + lines(tail) =~= lines(tail));
    } else {
        let e = text::next(head, 0, Class::LineFeed);
        text::lemma_next(head, 0, Class::LineFeed);
        assert(e < head.len()) by {
            if e == head.len() {
                assert(!text::in_class(Class::LineFeed, head[head.len() - 1]));
            }
        }
        assert forall|i: int| 0 <= i < e implies !text::in_class(
            Class::LineFeed,
            #[trigger] s[i],
        ) by {
            assert(s[i] == head[i]);
        }
        text::lemma_next_is(s, 0, Class::LineFeed, e);
        let rest = head.skip(e + 1);
        if rest.len() > 0 {
            assert(rest.last() == head.last());
        }
        lemma_lines_add(rest, tail);
        assert(s.skip(e + 1) =~= rest + tail);
        assert(s.take(e) =~= head.take(e));
        let first = seq![without_cr(head.take(e))];
        assert(first + (lines(rest) + lines(tail)) =~= (first + lines(rest)) + lines(tail));
    }
}

/// A text without line feeds is the first line of what it begins, up to the
/// end or a line feed.
pub proof fn lemma_first_line(line: Seq<char>, rest: Seq<char>)
    requires
        forall|i: int| 0 <= i < line.len() ==> #[trigger] line[i] != '\n',
        rest.len() == 0 ==> line.len() > 0,
        rest.len() > 0 ==> rest[0] == '\n',
    ensures
        lines(line + rest) == if rest.len() == 0 {
            seq![line]
        } else {
            seq![without_cr(line)] + lines(rest.skip(1))
        },
{
    let s = line + rest;
    let n = line.len() as int;
    assert forall|i: int| 0 <= i < n implies !text::in_class(Class::LineFeed, #[trigger] s[i]) by {
        assert(s[i] == line[i]);
    }
    text::lemma_next_is(s, 0, Class::LineFeed, n);
    if rest.len() == 0 {
        assert(s =~= line);
    } else {
        assert(s.take(n) =~= line);
        assert(s.skip(n + 1) =~= rest.skip(1));
    }
}

// ------------------------------------------------------------------------ laws

/// Lines are what stands between line feeds, without the carriage return before
/// one: the first line of a text is what comes before its first line feed, and
/// the others are the lines of what comes behind it.
pub proof fn lines_end_at_line_feeds(line: Seq<char>, rest: Seq<char>)
    requires
        forall|i: int| 0 <= i < line.len() ==> #[trigger] line[i] != '\n',
    ensures
        lines(line) == if line.len() == 0 {
            Seq::<Seq<char>>::empty()
        } else {
            seq![line]
        },
        lines(line + seq!['\r', '\n'] + rest) == seq![line] + lines(rest),
        (line.len() == 0 || line.last() != '\r') ==> lines(line + seq!['\n'] + rest) == seq![line]
            + lines(rest),
{
    if line.len() > 0 {
        lemma_first_line(line, Seq::empty());
        assert(line + Seq::<char>::empty() =~= line);
    } else {
        assert(lines(line) =~= seq![]);
    }
    let feed = seq!['\n'] + rest;
    assert(feed.skip(1) =~= rest);
    lemma_first_line(line.push('\r'), feed);
    assert(line + seq!['\r', '\n'] + rest =~= line.push('\r') + feed);
    assert(line.push('\r').drop_last() =~= line);
    if line.len() == 0 || line.last() != '\r' {
        lemma_first_line(line, feed);
        assert(line + seq!['\n'] + rest =~= line + feed);
    }
}

/// A carriage return is taken off the end of a line, once.
pub proof fn one_carriage_return_is_taken_off(line: Seq<char>)
    ensures
        without_cr(line.push('\r')) == line,
        line.len() == 0 || line.last() != '\r' ==> without_cr(line) == line,
{
    assert(line.push('\r').drop_last() =~= line);
}

/// Words are what stands between white space: behind white space the first word
/// runs up to white space or the end, and the other words are those of the rest.
/// In white space there are none.
pub proof fn words_end_at_white_space(gap: Seq<char>, word: Seq<char>, rest: Seq<char>)
    requires
        forall|i: int| 0 <= i < gap.len() ==> text::white_space(#[trigger] gap[i]),
        forall|i: int| 0 <= i < word.len() ==> !text::white_space(#[trigger] word[i]),
        rest.len() > 0 ==> text::white_space(rest[0]),
    ensures
        words(gap) == Seq::<Seq<char>>::empty(),
        word.len() > 0 ==> words(gap + word + rest) == seq![word] + words(rest),
{
    assert forall|i: int| 0 <= i < gap.len() implies !text::in_class(
        Class::NonWhite,
        #[trigger] gap[i],
    ) by {}
    text::lemma_next_is(gap, 0, Class::NonWhite, gap.len() as int);
    if word.len() > 0 {
        let s = gap + word + rest;
        let b = gap.len() as int;
        let e = b + word.len();
        assert forall|i: int| 0 <= i < b implies !text::in_class(
            Class::NonWhite,
            #[trigger] s[i],
        ) by {
            assert(s[i] == gap[i]);
        }
        assert(s[b] == word[0]);
        text::lemma_next_is(s, 0, Class::NonWhite, b);
        assert forall|i: int| b <= i < e implies !text::in_class(Class::White, #[trigger] s[i]) by {
            assert(s[i] == word[i - b]);
        }
        if rest.len() > 0 {
            assert(s[e] == rest[0]);
        }
        text::lemma_next_is(s, b, Class::White, e);
        assert(s.subrange(b, e) =~= word);
        assert(s.skip(e) =~= rest);
    }
}

/// A text is cut at the first place of the separator, which is dropped. It is
/// not cut exactly where it does not hold the separator.
pub proof fn cut_is_at_the_first_separator(
    head: Seq<char>,
    p: Seq<char>,
    tail: Seq<char>,
    s: Seq<char>,
)
    requires
        forall|j: int|
            0 <= j < head.len() ==> !p.is_prefix_of(#[trigger] (head + p + tail).skip(j)),
    ensures
        split_once(head + p + tail, p) == Some((head, tail)),
        split_once(s, p) is None <==> !text::has_text(s, p),
{
    text::leftmost_place_is_found(head, p, tail, s);
    let t = head + p + tail;
    assert(t.take(head.len() as int) =~= head);
    assert(t.skip((head.len() + p.len()) as int) =~= tail);
}

} // verus!

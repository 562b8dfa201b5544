//! Text as a sequence of characters: scanning, trimming, searching and case.
//!
//! Executable code works on slices of characters; the spec functions say what
//! each operation yields on the sequence that such a slice views as.
use vstd::prelude::*;
use vstd::slice::slice_subrange;
use vstd::string::*;

verus! {

/// `String::push` appends the character to the end of the string.
pub assume_specification[ String::push ](string: &mut String, ch: char)
    ensures
        final(string)@ == old(string)@.push(ch),
;

/// The text that `String::from_utf8_lossy` makes of bytes: UTF-8 text as it
/// is, with a replacement character for each ill-formed sequence.
pub uninterp spec fn lossy_utf8(bytes: Seq<u8>) -> Seq<char>;

/// `String::from_utf8_lossy`: the result depends on the bytes alone, and bytes
/// that are UTF-8 come out as the text they encode. Where the replacement
/// characters fall in other bytes is not said.
#[verifier::external_body]
pub(crate) fn lossy(bytes: &[u8]) -> (res: String)
    ensures
        res@ == lossy_utf8(bytes@),
        vstd::utf8::valid_utf8(bytes@) ==> res@ == vstd::utf8::decode_utf8(bytes@),
{
    String::from_utf8_lossy(bytes).into_owned()
}

// ---------------------------------------------------------------- characters

/// The characters with Unicode's `White_Space` property.
pub open spec fn white_space(c: char) -> bool {
    let u = c as u32;
    ||| 0x09 <= u <= 0x0d
    ||| u == 0x20
    ||| u == 0x85
    ||| u == 0xa0
    ||| u == 0x1680
    ||| 0x2000 <= u <= 0x200a
    ||| u == 0x2028
    ||| u == 0x2029
    ||| u == 0x202f
    ||| u == 0x205f
    ||| u == 0x3000
}

pub fn is_white_space(c: char) -> (res: bool)
    ensures
        res == white_space(c),
{
    let u: u32 = c as u32;
    (0x09 <= u && u <= 0x0d) || u == 0x20 || u == 0x85 || u == 0xa0 || u == 0x1680 || (0x2000 <= u
        && u <= 0x200a) || u == 0x2028 || u == 0x2029 || u == 0x202f || u == 0x205f || u == 0x3000
}

/// The ASCII decimal digits.
pub open spec fn digit(c: char) -> bool {
    '0' <= c <= '9'
}

/// The value of a decimal digit.
pub open spec fn digit_value(c: char) -> nat {
    (c as u32 - '0' as u32) as nat
}

/// The digit of value `d`.
pub open spec fn digit_char(d: nat) -> char {
    ('0' as u32 + d) as char
}

/// What a scan over text can stop at.
#[derive(Clone, Copy, PartialEq, Eq, Structural)]
pub enum Class {
    LineFeed,
    White,
    NonWhite,
    Digit,
    NonDigit,
}

pub open spec fn in_class(k: Class, c: char) -> bool {
    match k {
        Class::LineFeed => c == '\n',
        Class::White => white_space(c),
        Class::NonWhite => !white_space(c),
        Class::Digit => digit(c),
        Class::NonDigit => !digit(c),
    }
}

fn is_in_class(k: Class, c: char) -> (res: bool)
    ensures
        res == in_class(k, c),
{
    match k {
        Class::LineFeed => c == '\n',
        Class::White => is_white_space(c),
        Class::NonWhite => !is_white_space(c),
        Class::Digit => '0' <= c && c <= '9',
        Class::NonDigit => !('0' <= c && c <= '9'),
    }
}

// ------------------------------------------------------- text and characters

/// The characters of `s`, in order.
pub fn chars_of(s: &str) -> (res: Vec<char>)
    ensures
        res@ == s@,
{
    let mut res: Vec<char> = Vec::new();
    for c in it: s.chars()
        invariant
            it.seq() == s@,
            res@ == s@.take(it.index()),
    {
        res.push(c);
    }
    assert(s@.take(s@.len() as int) == s@);
    res
}

/// The text that the characters spell.
pub fn text_of(chars: &[char]) -> (res: String)
    ensures
        res@ == chars@,
{
    let mut res = String::new();
    let n: usize = chars.len();
    for i in 0..n
        invariant
            n == chars@.len(),
            res@ == chars@.take(i as int),
    {
        res.push(chars[i]);
    }
    assert(chars@.take(n as int) == chars@);
    res
}

/// The texts that a vector of slices spells.
pub open spec fn pieces(v: Seq<&[char]>) -> Seq<Seq<char>> {
    v.map_values(|p: &[char]| p@)
}

/// The texts that a vector of strings holds.
pub open spec fn strings(v: Seq<String>) -> Seq<Seq<char>> {
    v.map_values(|p: String| p@)
}

/// The text of an optional string.
pub open spec fn text_view(string: Option<String>) -> Option<Seq<char>> {
    match string {
        Some(s) => Some(s@),
        None => None,
    }
}

// ------------------------------------------------------------------ scanning

/// The first position from `from` on whose character is in `k`, or the end.
pub open spec fn next(s: Seq<char>, from: int, k: Class) -> int
    decreases s.len() - from,
{
    if from >= s.len() {
        s.len() as int
    } else if in_class(k, s[from]) {
        from
    } else {
        next(s, from + 1, k)
    }
}

/// `next` is where its recursion says: nothing before it is in the class, and
/// it is at the end or at a character of the class.
pub proof fn lemma_next(s: Seq<char>, from: int, k: Class)
    requires
        0 <= from <= s.len(),
    ensures
        from <= next(s, from, k) <= s.len(),
        forall|i: int| from <= i < next(s, from, k) ==> !in_class(k, #[trigger] s[i]),
        next(s, from, k) < s.len() ==> in_class(k, s[next(s, from, k)]),
    decreases s.len() - from,
{
    if from < s.len() && !in_class(k, s[from]) {
        lemma_next(s, from + 1, k);
    }
}

/// A position with these properties is `next`.
pub proof fn lemma_next_is(s: Seq<char>, from: int, k: Class, e: int)
    requires
        0 <= from <= e <= s.len(),
        forall|i: int| from <= i < e ==> !in_class(k, #[trigger] s[i]),
        e < s.len() ==> in_class(k, s[e]),
    ensures
        next(s, from, k) == e,
    decreases e - from,
{
    if from < e {
        lemma_next_is(s, from + 1, k, e);
    }
}

pub fn next_in(s: &[char], from: usize, k: Class) -> (res: usize)
    requires
        from <= s@.len(),
    ensures
        res == next(s@, from as int, k),
        from <= res <= s@.len(),
{
    let mut i: usize = from;
    let n: usize = s.len();
    while i < n
        invariant
            from <= i <= n,
            n == s@.len(),
            next(s@, from as int, k) == next(s@, i as int, k),
        decreases n - i,
    {
        if is_in_class(k, s[i]) {
            return i;
        }
        i = i + 1;
    }
    i
}

// ------------------------------------------------------------------ trimming

/// `s` without its leading white space.
pub open spec fn trim_start(s: Seq<char>) -> Seq<char> {
    s.skip(next(s, 0, Class::NonWhite))
}

/// `s` without its trailing white space.
pub open spec fn trim_end(s: Seq<char>) -> Seq<char>
    decreases s.len(),
{
    if s.len() > 0 && white_space(s.last()) {
        trim_end(s.drop_last())
    } else {
        s
    }
}

/// `s` without the white space around it.
pub open spec fn trim(s: Seq<char>) -> Seq<char> {
    trim_end(trim_start(s))
}

pub fn trimmed_start<'a>(s: &'a [char]) -> (res: &'a [char])
    ensures
        res@ == trim_start(s@),
{
    let b: usize = next_in(s, 0, Class::NonWhite);
    slice_subrange(s, b, s.len())
}

pub fn trimmed_end<'a>(s: &'a [char]) -> (res: &'a [char])
    ensures
        res@ == trim_end(s@),
{
    let mut e: usize = s.len();
    assert(s@.take(e as int) == s@);
    while e > 0 && is_white_space(s[e - 1])
        invariant
            e <= s@.len(),
            trim_end(s@) == trim_end(s@.take(e as int)),
        decreases e,
    {
        assert(s@.take(e as int).drop_last() == s@.take(e - 1));
        e = e - 1;
    }
    slice_subrange(s, 0, e)
}

pub fn trimmed<'a>(s: &'a [char]) -> (res: &'a [char])
    ensures
        res@ == trim(s@),
{
    trimmed_end(trimmed_start(s))
}

// ----------------------------------------------------------------- searching

/// `p` stands in `s` at position `i`.
pub open spec fn occurs_at(s: Seq<char>, p: Seq<char>, i: int) -> bool {
    0 <= i && i + p.len() <= s.len() && s.subrange(i, i + p.len()) == p
}

/// `p` stands somewhere in `s`.
pub open spec fn has_text(s: Seq<char>, p: Seq<char>) -> bool {
    exists|i: int| occurs_at(s, p, i)
}

/// `i` is the leftmost position at which `p` stands in `s`.
pub open spec fn first_at(s: Seq<char>, p: Seq<char>, i: int) -> bool {
    occurs_at(s, p, i) && forall|j: int| j < i ==> !occurs_at(s, p, j)
}

/// The leftmost position at which `p` stands in `s`.
pub open spec fn find(s: Seq<char>, p: Seq<char>) -> Option<int> {
    if has_text(s, p) {
        Some(choose|i: int| first_at(s, p, i))
    } else {
        None
    }
}

/// The leftmost position is the only one that is leftmost.
pub proof fn lemma_find_is(s: Seq<char>, p: Seq<char>, i: int)
    requires
        first_at(s, p, i),
    ensures
        find(s, p) == Some(i),
{
    assert(occurs_at(s, p, i));
    let f = choose|k: int| first_at(s, p, k);
    assert(first_at(s, p, f));
    if f < i {
        assert(occurs_at(s, p, f));
    }
}

/// Where `p` occurs at all, it has a leftmost place.
pub proof fn lemma_find(s: Seq<char>, p: Seq<char>)
    ensures
        match find(s, p) {
            Some(i) => first_at(s, p, i),
            None => !has_text(s, p),
        },
{
    if has_text(s, p) {
        let i = choose|i: int| occurs_at(s, p, i);
        lemma_least(s, p, i);
    }
}

proof fn lemma_least(s: Seq<char>, p: Seq<char>, i: int)
    requires
        occurs_at(s, p, i),
    ensures
        exists|k: int| first_at(s, p, k),
    decreases i,
{
    if !first_at(s, p, i) {
        let j = choose|j: int| j < i && occurs_at(s, p, j);
        lemma_least(s, p, j);
    }
}

/// `s` begins with `p`.
pub open spec fn begins(s: Seq<char>, p: Seq<char>) -> bool {
    occurs_at(s, p, 0)
}

fn stands_at(s: &[char], p: &[char], i: usize) -> (res: bool)
    requires
        i <= s@.len(),
    ensures
        res == occurs_at(s@, p@, i as int),
{
    let room: usize = s.len();
    if p.len() > room - i {
        return false;
    }
    let n: usize = p.len();
    for k in 0..n
        invariant
            n == p@.len(),
            room == s@.len(),
            i + n <= room,
            forall|j: int| 0 <= j < k ==> s@[i + j] == p@[j],
    {
        if s[i + k] != p[k] {
            assert(s@.subrange(i as int, i + p@.len())[k as int] != p@[k as int]);
            return false;
        }
    }
    assert(s@.subrange(i as int, i + p@.len()) =~= p@);
    true
}

/// Where `p` first stands in `s`.
pub fn find_in(s: &[char], p: &str) -> (res: Option<usize>)
    ensures
        match res {
            Some(i) => find(s@, p@) == Some(i as int) && i + p@.len() <= s@.len(),
            None => find(s@, p@) is None,
        },
{
    let pattern = chars_of(p);
    let n: usize = s.len();
    let mut i: usize = 0;
    loop
        invariant
            i <= n,
            n == s@.len(),
            pattern@ == p@,
            forall|j: int| j < i ==> !occurs_at(s@, p@, j),
        decreases n - i,
    {
        if stands_at(s, pattern.as_slice(), i) {
            proof {
                lemma_find_is(s@, p@, i as int);
            }
            return Some(i);
        }
        if i == n {
            assert(!has_text(s@, p@));
            return None;
        }
        i = i + 1;
    }
}

/// Whether `p` stands anywhere in `s`.
pub fn contains(s: &[char], p: &str) -> (res: bool)
    ensures
        res == has_text(s@, p@),
{
    find_in(s, p).is_some()
}

/// Whether `s` begins with `p`.
pub fn starts_with(s: &[char], p: &str) -> (res: bool)
    ensures
        res == begins(s@, p@),
{
    let p = chars_of(p);
    stands_at(s, p.as_slice(), 0)
}

/// Whether two texts are the same.
pub fn same(a: &[char], b: &[char]) -> (res: bool)
    ensures
        res == (a@ == b@),
{
    if a.len() != b.len() {
        return false;
    }
    let res = stands_at(a, b, 0);
    assert(a@.subrange(0, a@.len() as int) == a@);
    res
}

// ---------------------------------------------------------------------- case

/// What `str::to_lowercase` makes of a text.
pub uninterp spec fn lowercase(s: Seq<char>) -> Seq<char>;

/// `str::to_lowercase`: the result depends on the text alone. ASCII text has
/// its ASCII letters lowered and nothing else changed; what becomes of other
/// text is not said.
#[verifier::external_body]
pub(crate) fn lowered(s: &str) -> (res: String)
    ensures
        res@ == lowercase(s@),
        vstd::utf8::is_ascii_chars(s@) ==> res@ == s@.map_values(|c: char| ascii_lower(c)),
{
    s.to_lowercase()
}

/// `c` in lower case, if it is an ASCII letter.
pub open spec fn ascii_lower(c: char) -> char {
    if 'A' <= c <= 'Z' {
        (c as u32 + 32) as char
    } else {
        c
    }
}

/// The texts differ at most in the case of ASCII letters.
pub open spec fn same_but_case(a: Seq<char>, b: Seq<char>) -> bool {
    a.len() == b.len() && forall|i: int|
        0 <= i < a.len() ==> #[trigger] ascii_lower(a[i]) == ascii_lower(b[i])
}

fn to_ascii_lower(c: char) -> (res: char)
    ensures
        res == ascii_lower(c),
{
    if 'A' <= c && c <= 'Z' {
        (c as u8 + 32) as char
    } else {
        c
    }
}

/// Whether the texts differ at most in the case of ASCII letters.
pub fn is_same_but_case(a: &[char], b: &[char]) -> (res: bool)
    ensures
        res == same_but_case(a@, b@),
{
    let n: usize = a.len();
    if n != b.len() {
        return false;
    }
    for i in 0..n
        invariant
            n == a@.len(),
            n == b@.len(),
            forall|j: int| 0 <= j < i ==> #[trigger] ascii_lower(a@[j]) == ascii_lower(b@[j]),
    {
        if to_ascii_lower(a[i]) != to_ascii_lower(b[i]) {
            assert(ascii_lower(a@[i as int]) != ascii_lower(b@[i as int]));
            return false;
        }
    }
    true
}

// --------------------------------------------------------- facts about trimming

/// Trimming stops at what is not white space.
pub proof fn lemma_trim_end_stops(head: Seq<char>, tail: Seq<char>)
    requires
        head.len() > 0,
        !white_space(head.last()),
    ensures
        trim_end(head + tail) == head + trim_end(tail),
    decreases tail.len(),
{
    let s = head + tail;
    if tail.len() == 0 {
        assert(s =~= head);
        assert(head + trim_end(tail) =~= head);
    } else {
        assert(s.last() == tail.last());
        assert(s.drop_last() =~= head + tail.drop_last());
        if white_space(tail.last()) {
            lemma_trim_end_stops(head, tail.drop_last());
        }
    }
}

/// Text that begins and ends with something else than white space is not
/// trimmed.
pub proof fn lemma_trim_nothing(s: Seq<char>)
    requires
        s.len() > 0,
        !white_space(s[0]),
        !white_space(s.last()),
    ensures
        trim(s) == s,
{
    lemma_next_is(s, 0, Class::NonWhite, 0);
    assert(s.skip(0) =~= s);
}

/// What is left of the end of a text has no white space at its end, and is the
/// beginning of the text.
pub proof fn lemma_trim_end(s: Seq<char>)
    ensures
        trim_end(s).len() <= s.len(),
        trim_end(s) == s.take(trim_end(s).len() as int),
        trim_end(s).len() > 0 ==> !white_space(trim_end(s).last()),
    decreases s.len(),
{
    if s.len() > 0 && white_space(s.last()) {
        lemma_trim_end(s.drop_last());
        let n = trim_end(s).len() as int;
        assert(s.drop_last().take(n) =~= s.take(n));
    } else {
        assert(s.take(s.len() as int) =~= s);
    }
}

/// A beginning of a text holds only what the text holds.
pub proof fn lemma_has_text_in_part(s: Seq<char>, n: int, p: Seq<char>)
    requires
        0 <= n <= s.len(),
        has_text(s.take(n), p),
    ensures
        has_text(s, p),
        exists|i: int| occurs_at(s, p, i) && i + p.len() <= n,
{
    let i = choose|i: int| occurs_at(s.take(n), p, i);
    assert(s.take(n).subrange(i, i + p.len()) =~= s.subrange(i, i + p.len()));
    assert(occurs_at(s, p, i));
}

// ------------------------------------------------------------------------ laws

/// A text begins with another one exactly where it is that one and a rest.
pub proof fn beginning_is_a_prefix(s: Seq<char>, p: Seq<char>, rest: Seq<char>)
    ensures
        begins(s, p) <==> p.is_prefix_of(s),
        begins(p + rest, p),
{
    assert((p + rest).subrange(0, p.len() as int) =~= p);
}

/// A text holds another one exactly where it is something, that one, and
/// something.
pub proof fn held_text_stands_between(s: Seq<char>, a: Seq<char>, p: Seq<char>, b: Seq<char>)
    ensures
        has_text(a + p + b, p),
        has_text(s, p) <==> exists|x: Seq<char>, y: Seq<char>| s == #[trigger] (x + p + y),
{
    lemma_between(a, p, b);
    if has_text(s, p) {
        let i = choose|i: int| occurs_at(s, p, i);
        assert(s =~= s.take(i) + p + s.skip(i + p.len())) by {
            assert(s =~= s.take(i) + s.subrange(i, i + p.len()) + s.skip(i + p.len()));
        }
    }
    if exists|x: Seq<char>, y: Seq<char>| s == #[trigger] (x + p + y) {
        let (x, y) = choose|x: Seq<char>, y: Seq<char>| s == #[trigger] (x + p + y);
        lemma_between(x, p, y);
    }
}

proof fn lemma_between(a: Seq<char>, p: Seq<char>, b: Seq<char>)
    ensures
        occurs_at(a + p + b, p, a.len() as int),
{
    let k = a.len() as int;
    assert((a + p + b).subrange(k, k + p.len()) =~= p);
}

/// What is found is the leftmost place: `p` is found behind `a`, where it does
/// not begin anywhere earlier. Nothing is found exactly where `p` is not held.
pub proof fn leftmost_place_is_found(a: Seq<char>, p: Seq<char>, b: Seq<char>, s: Seq<char>)
    requires
        forall|j: int| 0 <= j < a.len() ==> !p.is_prefix_of(#[trigger] (a + p + b).skip(j)),
    ensures
        find(a + p + b, p) == Some(a.len() as int),
        find(s, p) is None <==> !has_text(s, p),
{
    let t = a + p + b;
    let k = a.len() as int;
    lemma_between(a, p, b);
    assert forall|j: int| j < k implies !occurs_at(t, p, j) by {
        if occurs_at(t, p, j) {
            assert(t.skip(j).subrange(0, p.len() as int) =~= t.subrange(j, j + p.len()));
            assert(p.is_prefix_of(t.skip(j)));
        }
    }
    lemma_find_is(t, p, k);
}

/// Trimming takes off the white space around a text that has none at its ends,
/// and nothing else.
pub proof fn trimming_takes_off_white_space(a: Seq<char>, m: Seq<char>, b: Seq<char>)
    requires
        forall|i: int| 0 <= i < a.len() ==> white_space(#[trigger] a[i]),
        forall|i: int| 0 <= i < b.len() ==> white_space(#[trigger] b[i]),
        m.len() > 0 ==> !white_space(m[0]) && !white_space(m.last()),
    ensures
        trim(a + m + b) == m,
        trim_start(a + m) == m,
        trim_end(m + b) == m,
        m.len() > 0 ==> trim_start(a + m + b) == m + b && trim_end(a + m + b) == a + m,
{
    lemma_trim_start(a, m);
    lemma_trim_end_white(m, b);
    if m.len() > 0 {
        assert(a + m + b =~= a + (m + b));
        lemma_trim_start(a, m + b);
        assert((a + m).last() == m.last());
        lemma_trim_end_white(a + m, b);
    } else {
        let s = a + m + b;
        lemma_trim_start(s, Seq::empty());
        assert(s + Seq::<char>::empty() =~= s);
        assert(trim_end(Seq::<char>::empty()) =~= m);
    }
}

proof fn lemma_trim_start(a: Seq<char>, m: Seq<char>)
    requires
        forall|i: int| 0 <= i < a.len() ==> white_space(#[trigger] a[i]),
        m.len() > 0 ==> !white_space(m[0]),
    ensures
        trim_start(a + m) == m,
{
    let s = a + m;
    let k = a.len() as int;
    assert forall|i: int| 0 <= i < k implies !in_class(Class::NonWhite, #[trigger] s[i]) by {
        assert(s[i] == a[i]);
    }
    lemma_next_is(s, 0, Class::NonWhite, k);
    assert(s.skip(k) =~= m);
}

proof fn lemma_trim_end_white(m: Seq<char>, b: Seq<char>)
    requires
        forall|i: int| 0 <= i < b.len() ==> white_space(#[trigger] b[i]),
        m.len() > 0 ==> !white_space(m.last()),
    ensures
        trim_end(m + b) == m,
    decreases b.len(),
{
    let s = m + b;
    if b.len() == 0 {
        assert(s =~= m);
    } else {
        assert(s.last() == b[b.len() - 1]);
        assert(s.drop_last() =~= m + b.drop_last());
        lemma_trim_end_white(m, b.drop_last());
    }
}

/// Two texts are the same but for case exactly where they differ in nothing but
/// capital and small ASCII letters.
pub proof fn case_is_that_of_ascii_letters(a: Seq<char>, b: Seq<char>)
    ensures
        same_but_case(a, b) <==> a.len() == b.len() && forall|i: int|
            0 <= i < a.len() ==> {
                ||| #[trigger] a[i] == b[i]
                ||| 'A' <= a[i] <= 'Z' && b[i] as int == a[i] as int + 32
                ||| 'A' <= b[i] <= 'Z' && a[i] as int == b[i] as int + 32
            },
{
    if same_but_case(a, b) {
        assert forall|i: int| 0 <= i < a.len() implies {
            ||| #[trigger] a[i] == b[i]
            ||| 'A' <= a[i] <= 'Z' && b[i] as int == a[i] as int + 32
            ||| 'A' <= b[i] <= 'Z' && a[i] as int == b[i] as int + 32
        } by {
            assert(ascii_lower(a[i]) == ascii_lower(b[i]));
            lemma_lower_pair(a[i], b[i]);
        }
    }
    if a.len() == b.len() && forall|i: int|
        0 <= i < a.len() ==> {
            ||| #[trigger] a[i] == b[i]
            ||| 'A' <= a[i] <= 'Z' && b[i] as int == a[i] as int + 32
            ||| 'A' <= b[i] <= 'Z' && a[i] as int == b[i] as int + 32
        } {
        assert forall|i: int| 0 <= i < a.len() implies #[trigger] ascii_lower(a[i]) == ascii_lower(
            b[i],
        ) by {
            lemma_lower_pair(a[i], b[i]);
        }
    }
}

proof fn lemma_lower_pair(x: char, y: char)
    ensures
        ascii_lower(x) == ascii_lower(y) <==> {
            ||| x == y
            ||| 'A' <= x <= 'Z' && y as int == x as int + 32
            ||| 'A' <= y <= 'Z' && x as int == y as int + 32
        },
{
}

/// Digits are the ten ASCII ones, with the values they write.
pub proof fn digits_are_the_ten(c: char, d: nat)
    ensures
        digit(c) <==> 48 <= c as int <= 57,
        digit(c) ==> digit_value(c) == c as int - 48,
        d < 10 ==> digit_char(d) as int == 48 + d,
{
}

/// What is behind views of optional and of many strings.
pub proof fn views_hold_the_texts(one: Option<String>, many: Seq<String>, parts: Seq<&[char]>)
    ensures
        one is None <==> text_view(one) is None,
        one matches Some(s) ==> text_view(one) == Some(s@),
        strings(many).len() == many.len(),
        forall|i: int| 0 <= i < many.len() ==> #[trigger] strings(many)[i] == many[i]@,
        pieces(parts).len() == parts.len(),
        forall|i: int| 0 <= i < parts.len() ==> #[trigger] pieces(parts)[i] == parts[i]@,
{
}

} // verus!

//! Unix paths as byte strings: joining, the last component and the folder that
//! holds it.
//!
//! A component is what stands between slashes. Empty components and `.` count
//! for nothing, except for a `.` at the very beginning.
use vstd::prelude::*;
use vstd::slice::slice_subrange;

verus! {

/// `/`
pub const SLASH: u8 = 47;

/// `.`
pub const DOT: u8 = 46;

/// The bytes of a text.
pub open spec fn bytes(s: Seq<char>) -> Seq<u8> {
    vstd::utf8::encode_utf8(s)
}

/// `part` as seen from the folder `base`: an absolute `part` stands alone.
pub open spec fn join(base: Seq<u8>, part: Seq<u8>) -> Seq<u8> {
    if part.len() > 0 && part[0] == SLASH {
        part
    } else if base.len() == 0 || base.last() == SLASH {
        base + part
    } else {
        base.push(SLASH) + part
    }
}

/// The path without the slashes and the `.` components at its end.
pub open spec fn without_tail(p: Seq<u8>) -> Seq<u8>
    decreases p.len(),
{
    if p.len() > 1 && (p.last() == SLASH || (p.last() == DOT && p[p.len() - 2] == SLASH)) {
        without_tail(p.drop_last())
    } else {
        p
    }
}

/// Where the text after the last slash begins.
pub open spec fn last_start(p: Seq<u8>) -> int
    decreases p.len(),
{
    if p.len() == 0 || p.last() == SLASH {
        p.len() as int
    } else {
        last_start(p.drop_last())
    }
}

/// A component that names something: not empty, not `.` and not `..`.
pub open spec fn is_name(c: Seq<u8>) -> bool {
    c.len() > 0 && c != seq![DOT] && c != seq![DOT, DOT]
}

/// The last component of the path, where it is a name.
pub open spec fn file_name(p: Seq<u8>) -> Option<Seq<u8>> {
    let t = without_tail(p);
    let c = t.skip(last_start(t));
    if is_name(c) {
        Some(c)
    } else {
        None
    }
}

/// The path without its last component. The root and the empty path have none.
pub open spec fn parent(p: Seq<u8>) -> Option<Seq<u8>> {
    let t = without_tail(p);
    if t.len() == 0 || t == seq![SLASH] {
        None
    } else {
        Some(without_tail(t.take(last_start(t))))
    }
}

proof fn lemma_last_start_is(p: Seq<u8>, at: int)
    requires
        0 <= at <= p.len(),
        forall|i: int| at <= i < p.len() ==> #[trigger] p[i] != SLASH,
        at > 0 ==> p[at - 1] == SLASH,
    ensures
        last_start(p) == at,
    decreases p.len(),
{
    if at < p.len() {
        assert(p.last() == p[p.len() - 1]);
        lemma_last_start_is(p.drop_last(), at);
    }
}

/// Copies bytes.
pub fn copied(b: &[u8]) -> (res: Vec<u8>)
    ensures
        res@ == b@,
{
    let mut res: Vec<u8> = Vec::new();
    let n: usize = b.len();
    for i in 0..n
        invariant
            n == b@.len(),
            res@ == b@.take(i as int),
    {
        res.push(b[i]);
    }
    assert(b@.take(n as int) == b@);
    res
}

fn append_bytes(to: &mut Vec<u8>, b: &[u8])
    ensures
        final(to)@ == old(to)@ + b@,
{
    let n: usize = b.len();
    for i in 0..n
        invariant
            n == b@.len(),
            to@ == old(to)@ + b@.take(i as int),
    {
        to.push(b[i]);
        assert(b@.take(i + 1) =~= b@.take(i as int).push(b@[i as int]));
    }
    assert(b@.take(n as int) == b@);
}

/// The path of `part` in the folder `base`.
pub fn path_join(base: &[u8], part: &[u8]) -> (res: Vec<u8>)
    ensures
        res@ == join(base@, part@),
{
    if part.len() > 0 && part[0] == SLASH {
        return copied(part);
    }
    let mut res = copied(base);
    if base.len() > 0 && base[base.len() - 1] != SLASH {
        res.push(SLASH);
    }
    append_bytes(&mut res, part);
    res
}

fn tail_cut<'a>(p: &'a [u8]) -> (res: &'a [u8])
    ensures
        res@ == without_tail(p@),
{
    let mut e: usize = p.len();
    assert(p@.take(e as int) == p@);
    while e > 1 && (p[e - 1] == SLASH || (p[e - 1] == DOT && p[e - 2] == SLASH))
        invariant
            e <= p@.len(),
            without_tail(p@) == without_tail(p@.take(e as int)),
        decreases e,
    {
        assert(p@.take(e as int).drop_last() == p@.take(e - 1));
        e = e - 1;
    }
    slice_subrange(p, 0, e)
}

fn last_start_of(p: &[u8]) -> (res: usize)
    ensures
        res == last_start(p@),
        res <= p@.len(),
{
    let mut e: usize = p.len();
    assert(p@.take(e as int) == p@);
    while e > 0 && p[e - 1] != SLASH
        invariant
            e <= p@.len(),
            last_start(p@) == last_start(p@.take(e as int)),
        decreases e,
    {
        assert(p@.take(e as int).drop_last() == p@.take(e - 1));
        e = e - 1;
    }
    e
}

/// The last component of a path, where it is a name.
pub fn path_file_name(p: &[u8]) -> (res: Option<Vec<u8>>)
    ensures
        match res {
            Some(name) => file_name(p@) == Some(name@),
            None => file_name(p@) is None,
        },
{
    let t = tail_cut(p);
    let c = slice_subrange(t, last_start_of(t), t.len());
    if c.len() == 0 {
        return None;
    }
    if c.len() == 1 && c[0] == DOT {
        assert(c@ =~= seq![DOT]);
        return None;
    }
    if c.len() == 2 && c[0] == DOT && c[1] == DOT {
        assert(c@ =~= seq![DOT, DOT]);
        return None;
    }
    Some(copied(c))
}

/// The folder that holds what a path names.
pub fn path_parent(p: &[u8]) -> (res: Option<Vec<u8>>)
    ensures
        match res {
            Some(folder) => parent(p@) == Some(folder@),
            None => parent(p@) is None,
        },
{
    let t = tail_cut(p);
    if t.len() == 0 {
        return None;
    }
    if t.len() == 1 && t[0] == SLASH {
        assert(t@ =~= seq![SLASH]);
        return None;
    }
    let head = slice_subrange(t, 0, last_start_of(t));
    Some(copied(tail_cut(head)))
}

// ------------------------------------------------------------------------ laws

/// A text without slashes has no slash among its bytes.
pub proof fn slash_is_one_byte(s: Seq<char>)
    requires
        !s.contains('/'),
    ensures
        !bytes(s).contains(SLASH),
    decreases s.len(),
{
    if s.len() > 0 {
        let c = s[0];
        let rest = s.drop_first();
        assert(c != '/') by {
            assert(s.contains(s[0]));
        }
        if rest.contains('/') {
            let i = choose|i: int| 0 <= i < rest.len() && rest[i] == '/';
            assert(s[i + 1] == '/');
        }
        slash_is_one_byte(rest);
        lemma_char_is_no_slash(c);
        let head = vstd::utf8::encode_scalar(c as u32);
        let all = bytes(s);
        assert(all == head + bytes(rest));
        if all.contains(SLASH) {
            let i = choose|i: int| 0 <= i < all.len() && all[i] == SLASH;
            if i < head.len() {
                assert(head.contains(head[i]));
            } else {
                assert(bytes(rest).contains(bytes(rest)[i - head.len()]));
            }
        }
    }
}

proof fn lemma_char_is_no_slash(c: char)
    requires
        c != '/',
    ensures
        !vstd::utf8::encode_scalar(c as u32).contains(SLASH),
{
    let v = c as u32;
    assert(v <= 0x7f && v != 47 ==> (v & 0x7F) as u8 != 47u8) by (bit_vector);
    assert(0xC0 | ((v >> 6) & 0x1F) as u8 >= 0x80u8) by (bit_vector);
    assert(0xE0 | ((v >> 12) & 0x0F) as u8 >= 0x80u8) by (bit_vector);
    assert(0xF0 | ((v >> 18) & 0x7) as u8 >= 0x80u8) by (bit_vector);
    assert(0x80 | (v & 0x3F) as u8 >= 0x80u8) by (bit_vector);
    assert(0x80 | ((v >> 6) & 0x3F) as u8 >= 0x80u8) by (bit_vector);
    assert(0x80 | ((v >> 12) & 0x3F) as u8 >= 0x80u8) by (bit_vector);
    let e = vstd::utf8::encode_scalar(v);
    if e.contains(SLASH) {
        let i = choose|i: int| 0 <= i < e.len() && e[i] == SLASH;
        assert(i == 0 || i == 1 || i == 2 || i == 3);
    }
}

/// What has a name also has a folder.
pub proof fn named_path_has_parent(p: Seq<u8>)
    requires
        file_name(p) is Some,
    ensures
        parent(p) is Some,
{
    let t = without_tail(p);
    if t == seq![SLASH] {
        assert(t.last() == SLASH);
    }
}

/// A file name is a name without slashes.
pub proof fn file_name_has_no_slash(p: Seq<u8>)
    requires
        file_name(p) is Some,
    ensures
        is_name(file_name(p)->0),
        !file_name(p)->0.contains(SLASH),
{
    lemma_no_slash_after(without_tail(p));
}

proof fn lemma_no_slash_after(p: Seq<u8>)
    ensures
        0 <= last_start(p) <= p.len(),
        !p.skip(last_start(p)).contains(SLASH),
    decreases p.len(),
{
    if p.len() > 0 && p.last() != SLASH {
        let rest = p.drop_last();
        lemma_no_slash_after(rest);
        let c = p.skip(last_start(p));
        let d = rest.skip(last_start(rest));
        assert(c =~= d.push(p.last()));
        if c.contains(SLASH) {
            let i = choose|i: int| 0 <= i < c.len() && c[i] == SLASH;
            assert(d[i] == SLASH);
            assert(d.contains(SLASH));
        }
    }
}

/// A name joined to a folder is the name of the joined path, and the folder is
/// its parent.
pub proof fn joined_name_is_found(base: Seq<u8>, name: Seq<u8>)
    requires
        is_name(name),
        !name.contains(SLASH),
    ensures
        file_name(join(base, name)) == Some(name),
        parent(join(base, name)) == Some(without_tail(base)),
{
    let p = join(base, name);
    let at = p.len() - name.len();
    assert(name[0] != SLASH) by {
        assert(name.contains(name[0]));
    }
    assert(p.skip(at) =~= name);
    assert(without_tail(p) == p) by {
        assert(p.last() == name.last());
        assert(name.contains(name.last()));
        if p.len() > 1 && p.last() == DOT && p[p.len() - 2] == SLASH {
            if name.len() > 1 {
                assert(p[p.len() - 2] == name[name.len() - 2]);
                assert(name.contains(name[name.len() - 2]));
            } else {
                assert(name =~= seq![DOT]);
            }
        }
    }
    assert(last_start(p) == at) by {
        assert forall|i: int| at <= i < p.len() implies #[trigger] p[i] != SLASH by {
            assert(p[i] == name[i - at]);
            assert(name.contains(name[i - at]));
        }
        lemma_last_start_is(p, at);
    }
    assert(p != seq![SLASH]) by {
        assert(p.last() == name.last());
        assert(name.contains(name.last()));
    }
    assert(without_tail(p.take(at)) == without_tail(base)) by {
        if base.len() == 0 || base.last() == SLASH {
            assert(p.take(at) =~= base);
        } else {
            assert(p.take(at) =~= base.push(SLASH));
            assert(base.push(SLASH).drop_last() =~= base);
        }
    }
}

/// Joining puts one slash between a folder and what is in it, and leaves an
/// absolute path alone.
pub proof fn joining_puts_one_slash_between(base: Seq<u8>, part: Seq<u8>)
    ensures
        join(base, seq![47u8] + part) == seq![47u8] + part,
        part.len() > 0 && part[0] == 47 ==> join(base, part) == part,
        part.len() == 0 || part[0] != 47 ==> {
            &&& join(Seq::empty(), part) == part
            &&& join(base.push(47), part) == base + seq![47u8] + part
            &&& base.len() > 0 && base.last() != 47 ==> join(base, part) == base + seq![47u8] + part
        },
{
    assert(Seq::<u8>::empty() + part =~= part);
    assert(base.push(47) + part =~= base + seq![47u8] + part);
}

/// The bytes of a text are its UTF-8 encoding.
pub proof fn bytes_are_utf8(s: Seq<char>)
    ensures
        vstd::utf8::valid_utf8(bytes(s)),
        vstd::utf8::decode_utf8(bytes(s)) == s,
{
    broadcast use {vstd::utf8::encode_utf8_valid_utf8, vstd::utf8::encode_utf8_decode_utf8};

}

/// Slashes and `.` components at the end of a path count for nothing, and
/// nothing else is cut off its end.
pub proof fn tail_is_slashes_and_dots(p: Seq<u8>)
    ensures
        p.len() > 0 ==> {
            &&& without_tail(p.push(47)) == without_tail(p)
            &&& without_tail(p + seq![47u8, 46]) == without_tail(p)
            &&& file_name(p.push(47)) == file_name(p)
            &&& file_name(p + seq![47u8, 46]) == file_name(p)
            &&& parent(p.push(47)) == parent(p)
            &&& parent(p + seq![47u8, 46]) == parent(p)
        },
        p.len() <= 1 ==> without_tail(p) == p,
        p.len() > 1 && p.last() != 47 && (p.last() != 46 || p[p.len() - 2] != 47) ==> without_tail(p)
            == p,
        without_tail(seq![47u8, 46]) == seq![47u8],
{
    if p.len() > 0 {
        assert(p.push(47).drop_last() =~= p);
        let q = p + seq![47u8, 46];
        assert(q.drop_last() =~= p.push(47));
        assert(q.last() == 46 && q[q.len() - 2] == 47);
    }
    let r = seq![47u8, 46];
    assert(r.drop_last() =~= seq![47u8]);
    assert(without_tail(seq![47u8]) == seq![47u8]);
}

/// The last component of a path is its file name unless it is `.` or `..`, and
/// what is before it is its parent. The empty path and the root have neither.
pub proof fn last_component_is_the_file_name(head: Seq<u8>, c: Seq<u8>)
    requires
        head.len() == 0 || head.last() == 47,
        c.len() > 0,
        !c.contains(47),
        c == seq![46u8] ==> head.len() == 0,
    ensures
        c != seq![46u8] && c != seq![46u8, 46] ==> file_name(head + c) == Some(c),
        c == seq![46u8] || c == seq![46u8, 46] ==> file_name(head + c) is None,
        parent(head + c) == Some(without_tail(head)),
        file_name(Seq::empty()) is None,
        parent(Seq::empty()) is None,
        file_name(seq![47u8]) is None,
        parent(seq![47u8]) is None,
{
    let p = head + c;
    let at = head.len() as int;
    assert(c.contains(c.last()));
    assert(c.contains(c[0]));
    assert(p.last() == c.last());
    assert(without_tail(p) == p) by {
        if p.len() > 1 && p.last() == DOT && p[p.len() - 2] == SLASH {
            if c.len() > 1 {
                assert(p[p.len() - 2] == c[c.len() - 2]);
                assert(c.contains(c[c.len() - 2]));
            } else {
                assert(c =~= seq![46u8]);
            }
        }
    }
    assert(last_start(p) == at) by {
        assert forall|i: int| at <= i < p.len() implies #[trigger] p[i] != SLASH by {
            assert(p[i] == c[i - at]);
            assert(c.contains(c[i - at]));
        }
        lemma_last_start_is(p, at);
    }
    assert(p.skip(at) =~= c);
    assert(p.take(at) =~= head);
    assert(p != seq![SLASH]);
    let none = Seq::<u8>::empty();
    assert(none.skip(last_start(none)).len() == 0);
    let root = seq![47u8];
    assert(without_tail(root) == root);
    assert(root.skip(last_start(root)).len() == 0);
}

} // verus!

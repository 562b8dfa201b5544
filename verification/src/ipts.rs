//! The IPTS folders of an instrument, and where a user's notebooks go in them.
use crate::number;
use crate::number::parse_u64;
use crate::paths;
use crate::paths::path_join;
use crate::text;
use crate::text::{chars_of, lossy, starts_with};
use vstd::prelude::*;
use vstd::slice::slice_subrange;
use vstd::string::*;

verus! {

/// An item found under an instrument's root.
#[derive(Debug)]
pub struct FoundDir {
    pub name: Vec<u8>,
    /// Whether it is a folder.
    pub is_dir: bool,
    /// Whether the user can read and enter it.
    pub accessible: bool,
    /// Whether the user can write to its `shared` folder.
    pub writable: bool,
}

/// What is known of a found item.
pub struct FoundModel {
    pub name: Seq<u8>,
    pub is_dir: bool,
    pub accessible: bool,
    pub writable: bool,
}

impl View for FoundDir {
    type V = FoundModel;

    open spec fn view(&self) -> FoundModel {
        FoundModel {
            name: self.name@,
            is_dir: self.is_dir,
            accessible: self.accessible,
            writable: self.writable,
        }
    }
}

/// What is known of the found items.
pub open spec fn dir_views(dirs: Seq<FoundDir>) -> Seq<FoundModel> {
    dirs.map_values(|d: FoundDir| d@)
}

/// An IPTS that the user can see.
#[derive(Debug)]
pub struct IptsEntry {
    pub label: String,
    pub path: Vec<u8>,
    pub writable: bool,
}

/// What is known of an IPTS.
pub struct IptsModel {
    pub label: Seq<char>,
    pub path: Seq<u8>,
    pub writable: bool,
}

impl View for IptsEntry {
    type V = IptsModel;

    open spec fn view(&self) -> IptsModel {
        IptsModel { label: self.label@, path: self.path@, writable: self.writable }
    }
}

/// What is known of the entries.
pub open spec fn entry_views(entries: Seq<IptsEntry>) -> Seq<IptsModel> {
    entries.map_values(|e: IptsEntry| e@)
}

/// What the labels of IPTS folders begin with.
pub const IPTS_PREFIX: &'static str = "IPTS-";

/// The number by which a folder is sorted, where it is an IPTS: what stands
/// behind the prefix, or the largest number where that is no number.
pub open spec fn ipts_number(label: Seq<char>) -> Option<u64> {
    if text::begins(label, IPTS_PREFIX@) {
        match number::parsed_u64(label.skip(IPTS_PREFIX@.len() as int)) {
            Some(n) => Some(n),
            None => Some(u64::MAX),
        }
    } else {
        None
    }
}

/// The sort number of a folder, where it is an IPTS.
pub fn ipts_number_of(label: &str) -> (res: Option<u64>)
    ensures
        res == ipts_number(label@),
{
    let chars = chars_of(label);
    if !starts_with(chars.as_slice(), IPTS_PREFIX) {
        return None;
    }
    let suffix = slice_subrange(chars.as_slice(), IPTS_PREFIX.unicode_len(), chars.len());
    assert(suffix@ == label@.skip(IPTS_PREFIX@.len() as int));
    match parse_u64(suffix) {
        Some(n) => Some(n),
        None => Some(u64::MAX),
    }
}

/// The labels of found items: their names as text.
pub open spec fn name_labels(dirs: Seq<FoundModel>) -> Seq<Seq<char>> {
    dirs.map_values(|d: FoundModel| text::lossy_utf8(d.name))
}

/// The user sees the item: it is the folder of an IPTS, and the user can access
/// it.
pub open spec fn is_visible(d: FoundModel, label: Seq<char>) -> bool {
    d.is_dir && d.accessible && ipts_number(label) is Some
}

/// What the list shows of a folder of `root`.
pub open spec fn entry_of(root: Seq<u8>, d: FoundModel, label: Seq<char>) -> IptsModel {
    IptsModel { label, path: paths::join(root, d.name), writable: d.writable }
}

/// What the list shows of the items of `root`, in the order in which they were
/// found.
pub open spec fn visible(root: Seq<u8>, dirs: Seq<FoundModel>, labels: Seq<Seq<char>>) -> Seq<
    IptsModel,
>
    decreases dirs.len(),
{
    if dirs.len() == 0 {
        seq![]
    } else {
        let i = dirs.len() - 1;
        let earlier = visible(root, dirs.drop_last(), labels);
        if is_visible(dirs[i], labels[i]) {
            earlier.push(entry_of(root, dirs[i], labels[i]))
        } else {
            earlier
        }
    }
}

/// The sort number of an entry.
pub open spec fn rank(e: IptsModel) -> u64 {
    match ipts_number(e.label) {
        Some(n) => n,
        None => u64::MAX,
    }
}

/// Picks the entries with sort number `n`.
pub open spec fn ranked(n: u64) -> spec_fn(IptsModel) -> bool {
    |e: IptsModel| rank(e) == n
}

/// `list` is `found` sorted by number; entries with the same number keep their
/// order.
pub open spec fn is_sorting(found: Seq<IptsModel>, list: Seq<IptsModel>) -> bool {
    &&& forall|i: int, j: int|
        0 <= i < j < list.len() ==> rank(#[trigger] list[i]) <= rank(#[trigger] list[j])
    &&& forall|n: u64| #[trigger] list.filter(ranked(n)) == found.filter(ranked(n))
}

proof fn lemma_none_ranked(s: Seq<IptsModel>, n: u64)
    requires
        forall|i: int| 0 <= i < s.len() ==> rank(#[trigger] s[i]) != n,
    ensures
        s.filter(ranked(n)) == Seq::<IptsModel>::empty(),
    decreases s.len(),
{
    reveal(Seq::filter);
    if s.len() > 0 {
        lemma_none_ranked(s.drop_last(), n);
    }
}

/// Inserting behind everything that is not greater keeps a sorting.
proof fn lemma_insert(found: Seq<IptsModel>, list: Seq<IptsModel>, at: int, e: IptsModel)
    requires
        is_sorting(found, list),
        0 <= at <= list.len(),
        forall|i: int| 0 <= i < at ==> rank(#[trigger] list[i]) <= rank(e),
        forall|i: int| at <= i < list.len() ==> rank(#[trigger] list[i]) > rank(e),
    ensures
        is_sorting(found.push(e), list.insert(at, e)),
{
    let after = list.insert(at, e);
    let head = list.take(at);
    let tail = list.skip(at);
    assert(list =~= head + tail);
    assert(after =~= (head + seq![e]) + tail);
    assert forall|n: u64| #[trigger] after.filter(ranked(n)) == found.push(e).filter(
        ranked(n),
    ) by {
        let pick = ranked(n);
        Seq::<IptsModel>::filter_distributes_over_add(head + seq![e], tail, pick);
        Seq::<IptsModel>::filter_distributes_over_add(head, seq![e], pick);
        Seq::<IptsModel>::filter_distributes_over_add(head, tail, pick);
        assert(found.push(e) =~= found + seq![e]);
        Seq::<IptsModel>::filter_distributes_over_add(found, seq![e], pick);
        assert(list.filter(pick) == found.filter(pick));
        let one = seq![e].filter(pick);
        if n == rank(e) {
            lemma_none_ranked(tail, n);
            assert(head.filter(pick) + one + tail.filter(pick) =~= head.filter(pick)
                + tail.filter(pick) + one);
        } else {
            lemma_none_ranked(seq![e], n);
            assert(head.filter(pick) + one + tail.filter(pick) =~= head.filter(pick)
                + tail.filter(pick) + one);
        }
    }
}

/// Sorts the items of `root` into the list of IPTS. `labels` has the label of
/// each.
pub fn sort_found(root: &str, dirs: &Vec<FoundDir>, labels: &Vec<String>) -> (res: Vec<IptsEntry>)
    requires
        labels@.len() == dirs@.len(),
    ensures
        is_sorting(
            visible(paths::bytes(root@), dir_views(dirs@), text::strings(labels@)),
            entry_views(res@),
        ),
{
    let mut list: Vec<IptsEntry> = Vec::new();
    let n: usize = dirs.len();
    let ghost folder = paths::bytes(root@);
    let ghost all = dir_views(dirs@);
    let ghost names = text::strings(labels@);
    assert(entry_views(list@) =~= visible(folder, all.take(0), names));
    for i in 0..n
        invariant
            n == dirs@.len(),
            n == labels@.len(),
            folder == paths::bytes(root@),
            all == dir_views(dirs@),
            names == text::strings(labels@),
            is_sorting(visible(folder, all.take(i as int), names), entry_views(list@)),
            forall|k: int|
                0 <= k < list@.len() ==> ipts_number((#[trigger] list@[k]).label@) is Some,
    {
        let d = &dirs[i];
        proof {
            assert(all.take(i + 1).drop_last() == all.take(i as int));
            assert(all[i as int] == d@);
            assert(names[i as int] == labels@[i as int]@);
        }
        if let Some(num) = ipts_number_of(labels[i].as_str()) {
            if d.is_dir && d.accessible {
                let entry = IptsEntry {
                    label: labels[i].clone(),
                    path: path_join(root.as_bytes(), d.name.as_slice()),
                    writable: d.writable,
                };
                let ghost seen = visible(folder, all.take(i as int), names);
                insert_entry(&mut list, entry, num, Ghost(seen));
            }
        }
    }
    assert(all.take(n as int) == all);
    list
}

/// The labels of found items.
fn labels_of(dirs: &Vec<FoundDir>) -> (res: Vec<String>)
    ensures
        text::strings(res@) == name_labels(dir_views(dirs@)),
{
    let mut res: Vec<String> = Vec::new();
    let n: usize = dirs.len();
    let ghost all = name_labels(dir_views(dirs@));
    for i in 0..n
        invariant
            n == dirs@.len(),
            all == name_labels(dir_views(dirs@)),
            text::strings(res@) == all.take(i as int),
    {
        let ghost sofar = res@;
        res.push(lossy(dirs[i].name.as_slice()));
        proof {
            assert(dir_views(dirs@)[i as int] == dirs@[i as int]@);
            assert(text::strings(res@) =~= text::strings(sofar).push(all[i as int]));
            assert(all.take(i + 1) =~= all.take(i as int).push(all[i as int]));
        }
    }
    assert(all.take(n as int) == all);
    res
}

/// Lists the IPTS under an instrument's root, sorted by number. `found` is the
/// items of `root`, or why it could not be read.
pub fn list_ipts(root: &str, found: Result<Vec<FoundDir>, String>) -> (res: Result<
    Vec<IptsEntry>,
    String,
>)
    ensures
        match found {
            Ok(dirs) => {
                let seen = dir_views(dirs@);
                &&& res is Ok
                &&& is_sorting(
                    visible(paths::bytes(root@), seen, name_labels(seen)),
                    entry_views(res->Ok_0@),
                )
            },
            Err(reason) => {
                &&& res is Err
                &&& res->Err_0@ == "Cannot read "@ + root@ + ": "@ + reason@
            },
        },
{
    match found {
        Ok(dirs) => {
            let labels = labels_of(&dirs);
            assert(labels@.len() == text::strings(labels@).len());
            Ok(sort_found(root, &dirs, &labels))
        },
        Err(reason) => Err(
            "Cannot read ".to_owned().concat(root).concat(": ").concat(reason.as_str()),
        ),
    }
}

/// Puts an entry behind all whose number is not greater.
fn insert_entry(
    list: &mut Vec<IptsEntry>,
    entry: IptsEntry,
    num: u64,
    Ghost(found): Ghost<Seq<IptsModel>>,
)
    requires
        is_sorting(found, entry_views(old(list)@)),
        ipts_number(entry.label@) == Some(num),
        forall|k: int|
            0 <= k < old(list)@.len() ==> ipts_number((#[trigger] old(list)@[k]).label@) is Some,
    ensures
        is_sorting(found.push(entry@), entry_views(final(list)@)),
        forall|k: int|
            0 <= k < final(list)@.len() ==> ipts_number((#[trigger] final(list)@[k]).label@) is Some,
{
    let ghost before = list@;
    let ghost prior = entry_views(before);
    let n: usize = list.len();
    let mut at: usize = n;
    while at > 0
        invariant
            at <= n,
            n == list@.len(),
            list@ == before,
            prior == entry_views(before),
            ipts_number(entry.label@) == Some(num),
            forall|k: int|
                0 <= k < before.len() ==> ipts_number((#[trigger] before[k]).label@) is Some,
            forall|k: int| at <= k < n ==> rank(#[trigger] prior[k]) > num,
        ensures
            at <= n,
            list@ == before,
            forall|k: int| at <= k < n ==> rank(#[trigger] prior[k]) > num,
            at > 0 ==> rank(prior[at - 1]) <= num,
        decreases at,
    {
        assert(prior[at - 1] == before[at - 1]@);
        match ipts_number_of(list[at - 1].label.as_str()) {
            Some(m) => {
                if m <= num {
                    break;
                }
            },
            None => {},
        }
        at = at - 1;
    }
    let ghost e = entry@;
    proof {
        assert forall|i: int| 0 <= i < at implies rank(#[trigger] prior[i]) <= rank(e) by {
            if i < at - 1 {
                assert(rank(prior[i]) <= rank(prior[at - 1]));
            }
        }
        lemma_insert(found, prior, at as int, e);
    }
    list.insert(at, entry);
    proof {
        assert(entry_views(list@) =~= prior.insert(at as int, e));
        assert forall|k: int| 0 <= k < list@.len() implies ipts_number(
            (#[trigger] list@[k]).label@,
        ) is Some by {
            if k < at {
                assert(list@[k] == before[k]);
            } else if k > at {
                assert(list@[k] == before[k - 1]);
            }
        }
    }
}

// ----------------------------------------------------------------- destination

/// Who the user is: the value of `USER`, or a stand-in.
pub open spec fn user_name(user: Option<Seq<char>>) -> Seq<char> {
    match user {
        Some(name) => name,
        None => "user"@,
    }
}

/// Who the user is, from the value of `USER`.
pub fn user_id(user: Option<String>) -> (res: String)
    ensures
        res@ == user_name(text::text_view(user)),
{
    match user {
        Some(name) => name,
        None => "user".to_owned(),
    }
}

/// `<ipts>/shared/notebooks/imaging_marimo_<user>`
pub open spec fn destination(ipts: Seq<u8>, user: Seq<char>) -> Seq<u8> {
    paths::join(
        paths::join(paths::join(ipts, paths::bytes("shared"@)), paths::bytes("notebooks"@)),
        paths::bytes("imaging_marimo_"@ + user),
    )
}

/// The folder in which a user's notebooks of an IPTS go.
pub fn destination_for(ipts: &IptsEntry, user: &str) -> (res: Vec<u8>)
    ensures
        res@ == destination(ipts@.path, user@),
{
    let shared = path_join(ipts.path.as_slice(), "shared".as_bytes());
    let notebooks = path_join(shared.as_slice(), "notebooks".as_bytes());
    let own = "imaging_marimo_".to_owned().concat(user);
    path_join(notebooks.as_slice(), own.as_str().as_bytes())
}

// ------------------------------------------------------------------------ laws

proof fn lemma_ranked_last(s: Seq<IptsModel>)
    requires
        s.len() > 0,
    ensures
        s.filter(ranked(rank(s.last()))) == s.drop_last().filter(ranked(rank(s.last()))).push(
            s.last(),
        ),
        forall|n: u64|
            n != rank(s.last()) ==> #[trigger] s.filter(ranked(n)) == s.drop_last().filter(
                ranked(n),
            ),
{
    reveal(Seq::filter);
}

proof fn lemma_has_rank(s: Seq<IptsModel>, n: u64)
    requires
        s.filter(ranked(n)).len() > 0,
    ensures
        exists|i: int| 0 <= i < s.len() && rank(#[trigger] s[i]) == n,
{
    if forall|i: int| 0 <= i < s.len() ==> rank(#[trigger] s[i]) != n {
        lemma_none_ranked(s, n);
    }
}

/// What was found determines the list.
pub proof fn listing_is_determined(
    found: Seq<IptsModel>,
    a: Seq<IptsModel>,
    b: Seq<IptsModel>,
)
    requires
        is_sorting(found, a),
        is_sorting(found, b),
    ensures
        a == b,
{
    assert forall|n: u64| #[trigger] a.filter(ranked(n)) == b.filter(ranked(n)) by {
        assert(a.filter(ranked(n)) == found.filter(ranked(n)));
        assert(b.filter(ranked(n)) == found.filter(ranked(n)));
    }
    lemma_same_sorting(a, b);
}

proof fn lemma_same_sorting(a: Seq<IptsModel>, b: Seq<IptsModel>)
    requires
        forall|i: int, j: int|
            0 <= i < j < a.len() ==> rank(#[trigger] a[i]) <= rank(#[trigger] a[j]),
        forall|i: int, j: int|
            0 <= i < j < b.len() ==> rank(#[trigger] b[i]) <= rank(#[trigger] b[j]),
        forall|n: u64| #[trigger] a.filter(ranked(n)) == b.filter(ranked(n)),
    ensures
        a == b,
    decreases a.len(),
{
    if a.len() == 0 {
        if b.len() > 0 {
            let n = rank(b.last());
            lemma_ranked_last(b);
            lemma_none_ranked(a, n);
            assert(a.filter(ranked(n)) == b.filter(ranked(n)));
        }
        assert(a =~= b);
    } else {
        let n = rank(a.last());
        lemma_ranked_last(a);
        assert(a.filter(ranked(n)) == b.filter(ranked(n)));
        lemma_has_rank(b, n);
        let m = rank(b.last());
        lemma_ranked_last(b);
        assert(a.filter(ranked(m)) == b.filter(ranked(m)));
        lemma_has_rank(a, m);
        assert(n == m);
        let fa = a.drop_last().filter(ranked(n));
        let fb = b.drop_last().filter(ranked(n));
        assert(fa.push(a.last()).last() == fb.push(b.last()).last());
        assert(fa.push(a.last()).drop_last() =~= fa);
        assert(fb.push(b.last()).drop_last() =~= fb);
        assert forall|k: u64| #[trigger] a.drop_last().filter(ranked(k)) == b.drop_last().filter(
            ranked(k),
        ) by {
            if k != n {
                assert(a.filter(ranked(k)) == b.filter(ranked(k)));
            }
        }
        lemma_same_sorting(a.drop_last(), b.drop_last());
        assert(a =~= a.drop_last().push(a.last()));
        assert(b =~= b.drop_last().push(b.last()));
    }
}

/// The list has every entry that is visible, and no other.
pub proof fn listing_has_all_visible(found: Seq<IptsModel>, list: Seq<IptsModel>, e: IptsModel)
    requires
        is_sorting(found, list),
    ensures
        list.contains(e) <==> found.contains(e),
{
    broadcast use Seq::lemma_filter_contains, Seq::lemma_filter_contains_rev;

    let pick = ranked(rank(e));
    assert(list.filter(pick) == found.filter(pick));
    if list.contains(e) {
        let i = choose|i: int| 0 <= i < list.len() && list[i] == e;
        assert(pick(list[i]));
        assert(list.filter(pick).contains(list[i]));
    }
    if found.contains(e) {
        let i = choose|i: int| 0 <= i < found.len() && found[i] == e;
        assert(pick(found[i]));
        assert(found.filter(pick).contains(found[i]));
    }
}

/// What is visible are the accessible IPTS folders of the root, each under its
/// own label and path.
pub proof fn visible_are_folders_of_the_root(
    root: Seq<u8>,
    dirs: Seq<FoundModel>,
    labels: Seq<Seq<char>>,
    e: IptsModel,
)
    requires
        labels.len() == dirs.len(),
    ensures
        visible(root, dirs, labels).contains(e) <==> exists|k: int|
            0 <= k < dirs.len() && is_visible(#[trigger] dirs[k], labels[k]) && e == entry_of(
                root,
                dirs[k],
                labels[k],
            ),
{
    lemma_visible(root, dirs, labels, e);
}

proof fn lemma_visible(
    root: Seq<u8>,
    dirs: Seq<FoundModel>,
    labels: Seq<Seq<char>>,
    e: IptsModel,
)
    requires
        labels.len() >= dirs.len(),
    ensures
        visible(root, dirs, labels).contains(e) <==> exists|k: int|
            0 <= k < dirs.len() && is_visible(#[trigger] dirs[k], labels[k]) && e == entry_of(
                root,
                dirs[k],
                labels[k],
            ),
    decreases dirs.len(),
{
    if dirs.len() > 0 {
        let rest = dirs.drop_last();
        let i = dirs.len() - 1;
        let earlier = visible(root, rest, labels);
        let all = visible(root, dirs, labels);
        lemma_visible(root, rest, labels, e);
        if earlier.contains(e) {
            let k = choose|k: int|
                0 <= k < rest.len() && is_visible(#[trigger] rest[k], labels[k]) && e == entry_of(
                    root,
                    rest[k],
                    labels[k],
                );
            assert(dirs[k] == rest[k]);
            let p = choose|p: int| 0 <= p < earlier.len() && earlier[p] == e;
            assert(all[p] == e);
        }
        if is_visible(dirs[i], labels[i]) {
            assert(all =~= earlier.push(entry_of(root, dirs[i], labels[i])));
            assert(all[earlier.len() as int] == entry_of(root, dirs[i], labels[i]));
            if all.contains(e) && !earlier.contains(e) {
                let p = choose|p: int| 0 <= p < all.len() && all[p] == e;
                if p < earlier.len() {
                    assert(earlier[p] == e);
                }
            }
        }
        if exists|k: int|
            0 <= k < dirs.len() && is_visible(#[trigger] dirs[k], labels[k]) && e == entry_of(
                root,
                dirs[k],
                labels[k],
            ) {
            let k = choose|k: int|
                0 <= k < dirs.len() && is_visible(#[trigger] dirs[k], labels[k]) && e == entry_of(
                    root,
                    dirs[k],
                    labels[k],
                );
            if k < i {
                assert(rest[k] == dirs[k]);
            }
        }
    }
}

/// The notebooks for a listed IPTS go to
/// `<root>/<ipts>/shared/notebooks/imaging_marimo_<user>`, where `<ipts>` is the
/// accessible folder with the label that is shown.
pub proof fn destination_is_under_the_root(
    root: Seq<u8>,
    dirs: Seq<FoundModel>,
    labels: Seq<Seq<char>>,
    list: Seq<IptsModel>,
    i: int,
    user: Seq<char>,
)
    requires
        labels.len() == dirs.len(),
        is_sorting(visible(root, dirs, labels), list),
        0 <= i < list.len(),
    ensures
        exists|k: int|
            {
                &&& 0 <= k < dirs.len()
                &&& is_visible(#[trigger] dirs[k], labels[k])
                &&& list[i].label == labels[k]
                &&& list[i].writable == dirs[k].writable
                &&& destination(list[i].path, user) == paths::join(
                    paths::join(
                        paths::join(paths::join(root, dirs[k].name), paths::bytes("shared"@)),
                        paths::bytes("notebooks"@),
                    ),
                    paths::bytes("imaging_marimo_"@ + user),
                )
            },
{
    let e = list[i];
    assert(list.contains(e));
    listing_has_all_visible(visible(root, dirs, labels), list, e);
    visible_are_folders_of_the_root(root, dirs, labels, e);
    let k = choose|k: int|
        0 <= k < dirs.len() && is_visible(#[trigger] dirs[k], labels[k]) && e == entry_of(
            root,
            dirs[k],
            labels[k],
        );
    assert(is_visible(dirs[k], labels[k]));
}

/// The notebooks of a user whose name has no slash are in the folder
/// `shared/notebooks` of the IPTS, under a name of their own.
pub proof fn destination_is_in_notebooks(ipts: Seq<u8>, user: Seq<char>)
    requires
        !user.contains('/'),
    ensures
        paths::parent(destination(ipts, user)) == Some(
            paths::join(paths::join(ipts, paths::bytes("shared"@)), paths::bytes("notebooks"@)),
        ),
        paths::file_name(destination(ipts, user)) == Some(paths::bytes("imaging_marimo_"@ + user)),
{
    broadcast use vstd::utf8::is_ascii_chars_encode_utf8;

    let own = "imaging_marimo_"@ + user;
    let name = paths::bytes(own);
    reveal_strlit("imaging_marimo_");
    reveal_strlit("notebooks");
    assert(!own.contains('/')) by {
        if own.contains('/') {
            let i = choose|i: int| 0 <= i < own.len() && own[i] == '/';
            assert(i >= 15);
            assert(user[i - 15] == '/');
        }
    }
    paths::slash_is_one_byte(own);
    assert(vstd::utf8::is_ascii_chars("notebooks"@));
    let notebooks = paths::bytes("notebooks"@);
    assert(notebooks.len() == 9 && notebooks[0] == 110 && notebooks[8] == 115);
    assert(own[0] == 'i' && own[1] == 'm' && own[2] == 'a');
    reveal_with_fuel(vstd::utf8::encode_utf8, 4);
    assert(name.len() >= 3);
    assert(name != seq![paths::DOT] && name != seq![paths::DOT, paths::DOT]);
    let base = paths::join(paths::join(ipts, paths::bytes("shared"@)), notebooks);
    assert(base.last() == 115);
    paths::joined_name_is_found(base, name);
}

/// The number in a label is the number it is sorted by.
pub proof fn label_with_number_has_it(n: u64)
    ensures
        ipts_number(IPTS_PREFIX@ + number::decimal(n as nat)) == Some(n),
{
    let d = number::decimal(n as nat);
    let label = IPTS_PREFIX@ + d;
    let k = IPTS_PREFIX@.len() as int;
    number::decimal_reads_back(n as nat);
    assert(label.subrange(0, k) =~= IPTS_PREFIX@);
    assert(label.skip(k) =~= d);
    assert(text::digit(d[0]));
}

/// A label is that of an IPTS exactly where it begins with `IPTS-`. It is sorted
/// by the number behind that, and behind all numbers where that is none.
pub proof fn number_is_what_is_behind_the_prefix(suffix: Seq<char>, label: Seq<char>)
    ensures
        ipts_number("IPTS-"@ + suffix) == Some(
            match number::parsed_u64(suffix) {
                Some(n) => n,
                None => u64::MAX,
            },
        ),
        ipts_number(label) is Some <==> "IPTS-"@.is_prefix_of(label),
{
    let p = "IPTS-"@;
    assert((p + suffix).subrange(0, p.len() as int) =~= p);
    assert((p + suffix).skip(p.len() as int) =~= suffix);
}

/// The user sees every folder whose label begins with `IPTS-` and that is
/// accessible, whatever its number, and nothing else.
pub proof fn every_accessible_ipts_folder_is_visible(d: FoundModel, label: Seq<char>, n: nat)
    ensures
        is_visible(d, label) <==> d.is_dir && d.accessible && "IPTS-"@.is_prefix_of(label),
        d.is_dir && d.accessible ==> is_visible(d, "IPTS-"@ + number::decimal(n)),
{
    number_is_what_is_behind_the_prefix(number::decimal(n), label);
}

/// What is visible of items is what is visible of the first ones, then of the
/// others: each one as an entry with its own label, path and access.
pub proof fn visible_keeps_the_order_found(
    root: Seq<u8>,
    a: Seq<FoundModel>,
    b: Seq<FoundModel>,
    la: Seq<Seq<char>>,
    lb: Seq<Seq<char>>,
)
    requires
        la.len() == a.len(),
        lb.len() == b.len(),
    ensures
        visible(root, a + b, la + lb) == visible(root, a, la) + visible(root, b, lb),
        a.len() == 1 && !is_visible(a[0], la[0]) ==> visible(root, a, la) == Seq::<
            IptsModel,
        >::empty(),
        a.len() == 1 && is_visible(a[0], la[0]) ==> {
            let seen = visible(root, a, la);
            &&& seen.len() == 1
            &&& seen[0].label == la[0]
            &&& seen[0].path == paths::join(root, a[0].name)
            &&& seen[0].writable == a[0].writable
        },
    decreases b.len(),
{
    lemma_own_labels(root, a, la, lb);
    if a.len() == 1 {
        assert(a.drop_last() =~= Seq::empty());
        assert(visible(root, a.drop_last(), la) =~= Seq::<IptsModel>::empty());
    }
    if b.len() == 0 {
        assert(a + b =~= a);
        assert(visible(root, a, la) + visible(root, b, lb) =~= visible(root, a, la));
    } else {
        let rest = b.drop_last();
        let lr = lb.drop_last();
        let last = seq![lb.last()];
        visible_keeps_the_order_found(root, a, rest, la, lr);
        assert((a + b).drop_last() =~= a + rest);
        assert(la + lb =~= (la + lr) + last);
        lemma_own_labels(root, a + rest, la + lr, last);
        assert(lb =~= lr + last);
        lemma_own_labels(root, rest, lr, last);
        let i = (a + b).len() - 1;
        assert((a + b)[i] == b[b.len() - 1]);
        assert((la + lb)[i] == lb[b.len() - 1]);
        assert(visible(root, a + b, la + lb) =~= visible(root, a, la) + visible(root, b, lb));
    }
}

/// Only the items' own labels count.
proof fn lemma_own_labels(
    root: Seq<u8>,
    a: Seq<FoundModel>,
    la: Seq<Seq<char>>,
    more: Seq<Seq<char>>,
)
    requires
        la.len() >= a.len(),
    ensures
        visible(root, a, la + more) == visible(root, a, la),
    decreases a.len(),
{
    if a.len() > 0 {
        lemma_own_labels(root, a.drop_last(), la, more);
    }
}

/// The number that a label is sorted by: behind all numbers where it has none.
pub open spec fn number_or_last(label: Seq<char>) -> u64 {
    match ipts_number(label) {
        Some(n) => n,
        None => u64::MAX,
    }
}

/// The list rises by number, and entries with the same number come as they were
/// found.
pub proof fn list_rises_by_number(found: Seq<IptsModel>, list: Seq<IptsModel>, n: u64)
    requires
        is_sorting(found, list),
    ensures
        forall|i: int, j: int|
            0 <= i < j < list.len() ==> number_or_last((#[trigger] list[i]).label)
                <= number_or_last((#[trigger] list[j]).label),
        list.filter(|e: IptsModel| number_or_last(e.label) == n) == found.filter(
            |e: IptsModel| number_or_last(e.label) == n,
        ),
{
    assert forall|i: int, j: int| 0 <= i < j < list.len() implies number_or_last(
        (#[trigger] list[i]).label,
    ) <= number_or_last((#[trigger] list[j]).label) by {
        assert(rank(list[i]) <= rank(list[j]));
    }
    let pick = |e: IptsModel| number_or_last(e.label) == n;
    assert(pick =~= ranked(n));
    assert(list.filter(ranked(n)) == found.filter(ranked(n)));
}

/// The list is no longer and no shorter than what was found.
pub proof fn list_loses_nothing(found: Seq<IptsModel>, list: Seq<IptsModel>)
    requires
        is_sorting(found, list),
    ensures
        list.len() == found.len(),
    decreases list.len(),
{
    if list.len() == 0 {
        if found.len() > 0 {
            let n = rank(found.last());
            lemma_ranked_last(found);
            lemma_none_ranked(list, n);
            assert(list.filter(ranked(n)) == found.filter(ranked(n)));
        }
    } else {
        let n = rank(list.last());
        lemma_ranked_last(list);
        assert(list.filter(ranked(n)) == found.filter(ranked(n)));
        lemma_has_rank(found, n);
        let k = lemma_last_ranked(found, n);
        let rest = found.take(k) + found.skip(k + 1);
        lemma_without(found, k, n);
        assert forall|m: u64| #[trigger] list.drop_last().filter(ranked(m)) == rest.filter(
            ranked(m),
        ) by {
            assert(list.filter(ranked(m)) == found.filter(ranked(m)));
            if m == n {
                assert(list.filter(ranked(n)).drop_last() =~= list.drop_last().filter(ranked(n)));
            }
        }
        assert forall|i: int, j: int| 0 <= i < j < list.drop_last().len() implies rank(
            #[trigger] list.drop_last()[i],
        ) <= rank(#[trigger] list.drop_last()[j]) by {
            assert(rank(list[i]) <= rank(list[j]));
        }
        list_loses_nothing(rest, list.drop_last());
    }
}

proof fn lemma_last_ranked(s: Seq<IptsModel>, n: u64) -> (k: int)
    requires
        exists|i: int| 0 <= i < s.len() && rank(#[trigger] s[i]) == n,
    ensures
        0 <= k < s.len(),
        rank(s[k]) == n,
        forall|j: int| k < j < s.len() ==> rank(#[trigger] s[j]) != n,
    decreases s.len(),
{
    if rank(s.last()) == n {
        s.len() - 1
    } else {
        let i = choose|i: int| 0 <= i < s.len() && rank(#[trigger] s[i]) == n;
        assert(s.drop_last()[i] == s[i]);
        let k = lemma_last_ranked(s.drop_last(), n);
        assert(s.drop_last()[k] == s[k]);
        assert forall|j: int| k < j < s.len() implies rank(#[trigger] s[j]) != n by {
            if j < s.len() - 1 {
                assert(s.drop_last()[j] == s[j]);
            }
        }
        k
    }
}

proof fn lemma_without(s: Seq<IptsModel>, k: int, n: u64)
    requires
        0 <= k < s.len(),
        rank(s[k]) == n,
        forall|j: int| k < j < s.len() ==> rank(#[trigger] s[j]) != n,
    ensures
        s.filter(ranked(n)).len() > 0,
        (s.take(k) + s.skip(k + 1)).filter(ranked(n)) == s.filter(ranked(n)).drop_last(),
        forall|m: u64|
            m != n ==> #[trigger] (s.take(k) + s.skip(k + 1)).filter(ranked(m)) == s.filter(
                ranked(m),
            ),
{
    let head = s.take(k);
    let tail = s.skip(k + 1);
    let e = seq![s[k]];
    assert(s =~= (head + e) + tail);
    assert forall|m: u64| true implies s.filter(ranked(m)) == head.filter(ranked(m)) + e.filter(
        ranked(m),
    ) + tail.filter(ranked(m)) && #[trigger] (head + tail).filter(ranked(m)) == head.filter(
        ranked(m),
    ) + tail.filter(ranked(m)) by {
        Seq::<IptsModel>::filter_distributes_over_add(head + e, tail, ranked(m));
        Seq::<IptsModel>::filter_distributes_over_add(head, e, ranked(m));
        Seq::<IptsModel>::filter_distributes_over_add(head, tail, ranked(m));
    }
    lemma_none_ranked(tail, n);
    lemma_ranked_last(e);
    assert(e.drop_last() =~= Seq::empty());
    assert(e.drop_last().filter(ranked(n)).len() == 0) by {
        lemma_none_ranked(e.drop_last(), n);
    }
    assert(e.filter(ranked(n)) =~= e);
    assert((head + tail).filter(ranked(n)) =~= s.filter(ranked(n)).drop_last());
    assert forall|m: u64| m != n implies #[trigger] (head + tail).filter(ranked(m)) == s.filter(
        ranked(m),
    ) by {
        lemma_none_ranked(e, m);
        assert(head.filter(ranked(m)) + e.filter(ranked(m)) =~= head.filter(ranked(m)));
    }
}

/// Where the notebooks of a user go, and who the user is.
pub proof fn destination_is_below_the_ipts(ipts: Seq<u8>, user: Seq<char>)
    ensures
        destination(ipts, user) == paths::join(
            paths::join(paths::join(ipts, paths::bytes("shared"@)), paths::bytes("notebooks"@)),
            paths::bytes("imaging_marimo_"@ + user),
        ),
        user_name(Some(user)) == user,
        user_name(None) == "user"@,
{
}

/// Items, entries and labels are what they hold.
pub proof fn items_and_entries_hold_their_fields(
    dirs: Seq<FoundDir>,
    entries: Seq<IptsEntry>,
    i: int,
)
    ensures
        dir_views(dirs).len() == dirs.len(),
        0 <= i < dirs.len() ==> {
            let d = dir_views(dirs)[i];
            &&& d.name == dirs[i].name@
            &&& d.is_dir == dirs[i].is_dir
            &&& d.accessible == dirs[i].accessible
            &&& d.writable == dirs[i].writable
        },
        name_labels(dir_views(dirs)).len() == dirs.len(),
        0 <= i < dirs.len() ==> name_labels(dir_views(dirs))[i] == text::lossy_utf8(dirs[i].name@),
        entry_views(entries).len() == entries.len(),
        0 <= i < entries.len() ==> {
            let e = entry_views(entries)[i];
            &&& e.label == entries[i].label@
            &&& e.path == entries[i].path@
            &&& e.writable == entries[i].writable
        },
{
}

} // verus!

//! The list of applications as the user sees it: standalone rows, and sections
//! that hold the applications of a category.
use crate::catalog;
use crate::catalog::{AppEntry, AppModel};
use crate::order;
use crate::order::comes_before;
use crate::text;
use crate::text::{chars_of, lowered, same};
use vstd::prelude::*;

verus! {

/// A row of the list. Numbers are positions in the catalog.
#[derive(Debug)]
pub enum DisplayItem {
    App(usize),
    Section(String, Vec<usize>),
}

/// A row of the list.
pub enum RowModel {
    App(int),
    Section(Seq<char>, Seq<int>),
}

/// Positions as integers.
pub open spec fn positions(v: Seq<usize>) -> Seq<int> {
    v.map_values(|i: usize| i as int)
}

impl View for DisplayItem {
    type V = RowModel;

    open spec fn view(&self) -> RowModel {
        match self {
            DisplayItem::App(i) => RowModel::App(*i as int),
            DisplayItem::Section(c, members) => RowModel::Section(c@, positions(members@)),
        }
    }
}

/// The rows of a list.
pub open spec fn rows(items: Seq<DisplayItem>) -> Seq<RowModel> {
    items.map_values(|r: DisplayItem| r@)
}

/// The applications of `category`, in the order of the catalog.
pub open spec fn members(apps: Seq<(Seq<char>, AppModel)>, category: Seq<char>) -> Seq<int>
    decreases apps.len(),
{
    if apps.len() == 0 {
        seq![]
    } else {
        let earlier = members(apps.drop_last(), category);
        if apps.last().1.category == category {
            earlier.push(apps.len() - 1)
        } else {
            earlier
        }
    }
}

/// What belongs in the list: each application without a category, and each
/// category that some application has, with all its applications.
pub open spec fn is_row(apps: Seq<(Seq<char>, AppModel)>, row: RowModel) -> bool {
    match row {
        RowModel::App(i) => 0 <= i < apps.len() && apps[i].1.category.len() == 0,
        RowModel::Section(c, inside) => {
            &&& c.len() > 0
            &&& inside == members(apps, c)
            &&& inside.len() > 0
        },
    }
}

/// What rows are sorted by: the names of the applications, and their
/// categories, in the form in which they are compared.
pub struct Keys {
    pub names: Seq<Seq<char>>,
    pub categories: Seq<Seq<char>>,
}

/// What a row goes by: an application by its name, a section by its category.
pub open spec fn key(keys: Keys, row: RowModel) -> Seq<char> {
    match row {
        RowModel::App(i) => keys.names[i],
        RowModel::Section(_, inside) => keys.categories[inside[0]],
    }
}

/// Rows go by their keys. Rows with the same key go applications first, in the
/// order of the catalog, then sections by category.
pub open spec fn goes_before(keys: Keys, a: RowModel, b: RowModel) -> bool {
    let ka = key(keys, a);
    let kb = key(keys, b);
    order::before(ka, kb) || (ka == kb && match (a, b) {
        (RowModel::App(i), RowModel::App(j)) => i < j,
        (RowModel::App(_), RowModel::Section(_, _)) => true,
        (RowModel::Section(_, _), RowModel::App(_)) => false,
        (RowModel::Section(c, _), RowModel::Section(d, _)) => order::before(c, d),
    })
}

/// The rows are in their order.
pub open spec fn in_order(keys: Keys, list: Seq<RowModel>) -> bool {
    forall|i: int, j: int|
        0 <= i < j < list.len() ==> goes_before(keys, #[trigger] list[i], #[trigger] list[j])
}

/// The list shows what belongs in it and nothing else.
pub open spec fn is_complete(apps: Seq<(Seq<char>, AppModel)>, list: Seq<RowModel>) -> bool {
    forall|row: RowModel| #[trigger] list.contains(row) <==> is_row(apps, row)
}

/// The list of the applications, sorted by `keys`.
pub open spec fn is_display(
    apps: Seq<(Seq<char>, AppModel)>,
    keys: Keys,
    list: Seq<RowModel>,
) -> bool {
    in_order(keys, list) && is_complete(apps, list)
}

/// Names and categories in lower case.
pub open spec fn lower_keys(apps: Seq<(Seq<char>, AppModel)>) -> Keys {
    Keys {
        names: apps.map_values(|a: (Seq<char>, AppModel)| text::lowercase(a.0)),
        categories: apps.map_values(|a: (Seq<char>, AppModel)| text::lowercase(a.1.category)),
    }
}

// ------------------------------------------------------------ facts on the order

proof fn lemma_total(keys: Keys, a: RowModel, b: RowModel)
    ensures
        !(goes_before(keys, a, b) && goes_before(keys, b, a)),
        !goes_before(keys, a, a),
        goes_before(keys, a, b) || goes_before(keys, b, a) || match (a, b) {
            (RowModel::App(i), RowModel::App(j)) => i == j,
            (RowModel::Section(c, _), RowModel::Section(d, _)) => c == d,
            _ => false,
        },
{
    let ka = key(keys, a);
    let kb = key(keys, b);
    order::before_is_total(ka, kb);
    order::before_is_total(ka, ka);
    if let (RowModel::Section(c, _), RowModel::Section(d, _)) = (a, b) {
        order::before_is_total(c, d);
        order::before_is_total(c, c);
    }
    if let RowModel::Section(c, _) = a {
        order::before_is_total(c, c);
    }
}

proof fn lemma_transitive(keys: Keys, a: RowModel, b: RowModel, c: RowModel)
    requires
        goes_before(keys, a, b),
        goes_before(keys, b, c),
    ensures
        goes_before(keys, a, c),
{
    let ka = key(keys, a);
    let kb = key(keys, b);
    let kc = key(keys, c);
    if order::before(ka, kb) && order::before(kb, kc) {
        order::before_is_transitive(ka, kb, kc);
    }
    if let RowModel::Section(x, _) = a {
        if let RowModel::Section(y, _) = b {
            if let RowModel::Section(z, _) = c {
                if order::before(x, y) && order::before(y, z) {
                    order::before_is_transitive(x, y, z);
                }
            }
        }
    }
}

/// `members` holds the positions with the category, in ascending order.
pub proof fn lemma_members(apps: Seq<(Seq<char>, AppModel)>, category: Seq<char>)
    ensures
        forall|i: int| #[trigger]
            members(apps, category).contains(i) <==> 0 <= i < apps.len() && apps[i].1.category
                == category,
        forall|k: int, l: int|
            0 <= k < l < members(apps, category).len() ==> #[trigger] members(apps, category)[k]
                < #[trigger] members(apps, category)[l],
    decreases apps.len(),
{
    if apps.len() > 0 {
        let rest = apps.drop_last();
        let m = members(rest, category);
        lemma_members(rest, category);
        assert forall|i: int| #[trigger] members(apps, category).contains(i) <==> 0 <= i
            < apps.len() && apps[i].1.category == category by {
            if apps.last().1.category == category {
                let all = m.push(apps.len() - 1);
                assert(members(apps, category) == all);
                if i == apps.len() - 1 {
                    assert(all[m.len() as int] == i);
                } else {
                    if m.contains(i) {
                        let k = choose|k: int| 0 <= k < m.len() && m[k] == i;
                        assert(all[k] == i);
                    }
                    if all.contains(i) {
                        let k = choose|k: int| 0 <= k < all.len() && all[k] == i;
                        assert(m[k] == i);
                    }
                    assert(m.contains(i) == all.contains(i));
                }
            }
            if 0 <= i < rest.len() {
                assert(rest[i] == apps[i]);
            }
        }
        assert forall|k: int, l: int| 0 <= k < l < members(apps, category).len() implies
            #[trigger] members(apps, category)[k] < #[trigger] members(apps, category)[l] by {
            if apps.last().1.category == category {
                assert(members(apps, category)[k] == m[k]);
                assert(m.contains(m[k]));
                if l < m.len() {
                    assert(members(apps, category)[l] == m[l]);
                }
            }
        }
    }
}

// ------------------------------------------------------------------ executable

/// The row has a key.
spec fn has_key(item: DisplayItem, n: int) -> bool {
    match item {
        DisplayItem::App(i) => i < n,
        DisplayItem::Section(_, inside) => inside@.len() > 0 && inside@[0] < n,
    }
}

/// Every row has a key.
spec fn have_keys(items: Seq<DisplayItem>, n: int) -> bool {
    forall|k: int| 0 <= k < items.len() ==> has_key(#[trigger] items[k], n)
}

/// The keys in two vectors.
pub open spec fn keys_of(names: Seq<String>, categories: Seq<String>) -> Keys {
    Keys { names: text::strings(names), categories: text::strings(categories) }
}

fn key_of<'a>(
    names: &'a Vec<String>,
    categories: &'a Vec<String>,
    item: &DisplayItem,
) -> (res: &'a str)
    requires
        names@.len() == categories@.len(),
        has_key(*item, names@.len() as int),
    ensures
        res@ == key(keys_of(names@, categories@), item@),
{
    match item {
        DisplayItem::App(i) => names[*i].as_str(),
        DisplayItem::Section(_, inside) => categories[inside[0]].as_str(),
    }
}

fn is_before(
    names: &Vec<String>,
    categories: &Vec<String>,
    a: &DisplayItem,
    b: &DisplayItem,
) -> (res: bool)
    requires
        names@.len() == categories@.len(),
        has_key(*a, names@.len() as int),
        has_key(*b, names@.len() as int),
    ensures
        res == goes_before(keys_of(names@, categories@), a@, b@),
{
    let ka = chars_of(key_of(names, categories, a));
    let kb = chars_of(key_of(names, categories, b));
    if comes_before(ka.as_slice(), kb.as_slice()) {
        return true;
    }
    if !same(ka.as_slice(), kb.as_slice()) {
        return false;
    }
    match (a, b) {
        (DisplayItem::App(i), DisplayItem::App(j)) => *i < *j,
        (DisplayItem::App(_), DisplayItem::Section(_, _)) => true,
        (DisplayItem::Section(_, _), DisplayItem::App(_)) => false,
        (DisplayItem::Section(c, _), DisplayItem::Section(d, _)) => {
            let cc = chars_of(c.as_str());
            let dc = chars_of(d.as_str());
            comes_before(cc.as_slice(), dc.as_slice())
        },
    }
}

/// Puts a row that is not in the list where it goes.
fn insert_row(
    names: &Vec<String>,
    categories: &Vec<String>,
    list: &mut Vec<DisplayItem>,
    item: DisplayItem,
)
    requires
        names@.len() == categories@.len(),
        have_keys(old(list)@, names@.len() as int),
        has_key(item, names@.len() as int),
        in_order(keys_of(names@, categories@), rows(old(list)@)),
        forall|k: int|
            0 <= k < old(list)@.len() ==> match (item@, (#[trigger] old(list)@[k])@) {
                (RowModel::App(i), RowModel::App(j)) => i != j,
                (RowModel::Section(c, _), RowModel::Section(d, _)) => c != d,
                _ => true,
            },
    ensures
        have_keys(final(list)@, names@.len() as int),
        in_order(keys_of(names@, categories@), rows(final(list)@)),
        forall|row: RowModel| #[trigger]
            rows(final(list)@).contains(row) <==> rows(old(list)@).contains(row) || row == item@,
{
    let ghost keys = keys_of(names@, categories@);
    let ghost before = list@;
    let n: usize = list.len();
    let mut at: usize = 0;
    while at < n && is_before(names, categories, &list[at], &item)
        invariant
            at <= n,
            n == list@.len(),
            list@ == before,
            keys == keys_of(names@, categories@),
            names@.len() == categories@.len(),
            have_keys(before, names@.len() as int),
            has_key(item, names@.len() as int),
            forall|k: int| 0 <= k < at ==> goes_before(keys, (#[trigger] before[k])@, item@),
        ensures
            at <= n,
            list@ == before,
            forall|k: int| 0 <= k < at ==> goes_before(keys, (#[trigger] before[k])@, item@),
            at < n ==> !goes_before(keys, before[at as int]@, item@),
        decreases n - at,
    {
        at = at + 1;
    }
    let ghost row = item@;
    proof {
        assert forall|k: int| at <= k < n implies goes_before(
            keys,
            row,
            (#[trigger] before[k])@,
        ) by {
            lemma_total(keys, before[at as int]@, row);
            assert(goes_before(keys, row, before[at as int]@));
            if k > at {
                assert(goes_before(keys, rows(before)[at as int], rows(before)[k]));
                lemma_transitive(keys, row, before[at as int]@, before[k]@);
            }
        }
    }
    list.insert(at, item);
    proof {
        let after = rows(list@);
        let prior = rows(before);
        assert(after =~= prior.insert(at as int, row));
        assert forall|i: int, j: int| 0 <= i < j < after.len() implies goes_before(
            keys,
            #[trigger] after[i],
            #[trigger] after[j],
        ) by {
            let pi = if i < at { i } else { i - 1 };
            let pj = if j < at { j } else { j - 1 };
            if i != at {
                assert(after[i] == prior[pi] && prior[pi] == before[pi]@);
            }
            if j != at {
                assert(after[j] == prior[pj] && prior[pj] == before[pj]@);
            }
        }
        assert forall|r: RowModel| #[trigger] after.contains(r) <==> prior.contains(r) || r
            == row by {
            if prior.contains(r) {
                let k = choose|k: int| 0 <= k < prior.len() && prior[k] == r;
                if k < at {
                    assert(after[k] == r);
                } else {
                    assert(after[k + 1] == r);
                }
            }
            if r == row {
                assert(after[at as int] == r);
            }
            if after.contains(r) {
                let k = choose|k: int| 0 <= k < after.len() && after[k] == r;
                if k < at {
                    assert(prior[k] == r);
                } else if k > at {
                    assert(prior[k - 1] == r);
                }
            }
        }
        assert forall|k: int| 0 <= k < list@.len() implies has_key(
            #[trigger] list@[k],
            names@.len() as int,
        ) by {
            if k < at {
                assert(list@[k] == before[k]);
            } else if k > at {
                assert(list@[k] == before[k - 1]);
            }
        }
    }
}

/// Where the section of `category` is in the list.
fn section_at(list: &Vec<DisplayItem>, category: &String) -> (res: Option<usize>)
    ensures
        match res {
            Some(k) => k < list@.len() && list@[k as int] is Section && list@[k as int]->Section_0@
                == category@,
            None => forall|k: int|
                0 <= k < list@.len() && (#[trigger] list@[k]) is Section ==> list@[k]->Section_0@
                    != category@,
        },
{
    let n: usize = list.len();
    for k in 0..n
        invariant
            n == list@.len(),
            forall|j: int|
                0 <= j < k && (#[trigger] list@[j]) is Section ==> list@[j]->Section_0@
                    != category@,
    {
        if let DisplayItem::Section(c, _) = &list[k] {
            if *c == *category {
                return Some(k);
            }
        }
    }
    None
}

/// Adds an application to the section at `k`.
fn add_member(list: &mut Vec<DisplayItem>, k: usize, i: usize)
    requires
        k < old(list)@.len(),
        old(list)@[k as int] is Section,
    ensures
        final(list)@.len() == old(list)@.len(),
        forall|j: int|
            0 <= j < old(list)@.len() && j != k ==> #[trigger] final(list)@[j] == old(list)@[j],
        final(list)@[k as int]@ == RowModel::Section(
            old(list)@[k as int]->Section_0@,
            positions(old(list)@[k as int]->Section_1@).push(i as int),
        ),
        final(list)@[k as int] is Section,
        forall|n: int| has_key(old(list)@[k as int], n) ==> #[trigger] has_key(
            final(list)@[k as int],
            n,
        ),
{
    let item = list.remove(k);
    if let DisplayItem::Section(c, inside) = item {
        let mut inside = inside;
        let ghost prior = inside@;
        inside.push(i);
        assert(positions(inside@) =~= positions(prior).push(i as int));
        list.insert(k, DisplayItem::Section(c, inside));
    }
}

/// Groups the applications for display and sorts the rows. Each application
/// has a key for its name and one for its category.
pub fn arrange(
    applications: &Vec<(String, AppEntry)>,
    names: &Vec<String>,
    categories: &Vec<String>,
) -> (res: Vec<DisplayItem>)
    requires
        names@.len() == applications@.len(),
        categories@.len() == applications@.len(),
    ensures
        is_display(catalog::app_views(applications@), keys_of(names@, categories@), rows(res@)),
{
    let ghost apps = catalog::app_views(applications@);
    let ghost keys = keys_of(names@, categories@);
    let mut list: Vec<DisplayItem> = Vec::new();
    let n: usize = applications.len();
    proof {
        assert forall|row: RowModel| #[trigger] rows(list@).contains(row) <==> is_row(
            apps.take(0),
            row,
        ) by {}
    }
    for i in 0..n
        invariant
            n == applications@.len(),
            apps == catalog::app_views(applications@),
            n == names@.len(),
            n == categories@.len(),
            keys == keys_of(names@, categories@),
            have_keys(list@, n as int),
            in_order(keys, rows(list@)),
            is_complete(apps.take(i as int), rows(list@)),
    {
        let ghost seen = apps.take(i as int);
        let ghost more = apps.take(i + 1);
        let category = &applications[i].1.category;
        proof {
            assert(more.drop_last() == seen);
            assert(more.last() == apps[i as int]);
            assert(apps[i as int].1.category == category@);
        }
        let ghost prior = list@;
        if category.as_str().is_empty() {
            proof {
                assert forall|k: int| 0 <= k < prior.len() implies match (
                    RowModel::App(i as int),
                    (#[trigger] prior[k])@,
                ) {
                    (RowModel::App(i), RowModel::App(j)) => i != j,
                    _ => true,
                } by {
                    assert(rows(prior)[k] == prior[k]@);
                    assert(rows(prior).contains(prior[k]@));
                }
            }
            insert_row(names, categories, &mut list, DisplayItem::App(i));
            proof {
                assert forall|row: RowModel| #[trigger] rows(list@).contains(row) <==> is_row(
                    more,
                    row,
                ) by {
                    lemma_grown(apps, i as int, row);
                    assert(rows(prior).contains(row) <==> is_row(seen, row));
                }
            }
        } else {
            match section_at(&list, category) {
                Some(k) => {
                    let ghost inside = positions(prior[k as int]->Section_1@);
                    proof {
                        assert(rows(prior)[k as int] == RowModel::Section(category@, inside));
                        assert(rows(prior).contains(rows(prior)[k as int]));
                    }
                    add_member(&mut list, k, i);
                    proof {
                        let after = rows(list@);
                        let grown = RowModel::Section(category@, members(more, category@));
                        assert(after[k as int] == grown);
                        assert forall|a: int, b: int| 0 <= a < b < after.len() implies goes_before(
                            keys,
                            #[trigger] after[a],
                            #[trigger] after[b],
                        ) by {
                            assert(goes_before(keys, rows(prior)[a], rows(prior)[b]));
                            if a != k {
                                assert(after[a] == rows(prior)[a]);
                            }
                            if b != k {
                                assert(after[b] == rows(prior)[b]);
                            }
                            assert(key(keys, grown) == key(keys, rows(prior)[k as int]));
                        }
                        assert(after =~= rows(prior).update(k as int, grown));
                        lemma_section_grown(apps, keys, i as int, rows(prior), after, k as int);
                    }
                },
                None => {
                    let mut inside: Vec<usize> = Vec::new();
                    inside.push(i);
                    proof {
                        assert(positions(inside@) =~= seq![i as int]);
                        assert forall|k: int| 0 <= k < prior.len() implies match (
                            RowModel::Section(category@, seq![i as int]),
                            (#[trigger] prior[k])@,
                        ) {
                            (RowModel::Section(c, _), RowModel::Section(d, _)) => c != d,
                            _ => true,
                        } by {}
                    }
                    let item = DisplayItem::Section(category.clone(), inside);
                    insert_row(names, categories, &mut list, item);
                    proof {
                        let fresh = RowModel::Section(category@, seq![i as int]);
                        assert(members(seen, category@).len() == 0) by {
                            let old_row = RowModel::Section(
                                category@,
                                members(seen, category@),
                            );
                            if members(seen, category@).len() > 0 {
                                assert(is_row(seen, old_row));
                                assert(rows(prior).contains(old_row));
                                let k = choose|k: int|
                                    0 <= k < rows(prior).len() && rows(prior)[k] == old_row;
                                assert(prior[k]@ == old_row);
                                assert(prior[k] is Section);
                            }
                        }
                        assert(members(more, category@) =~= seq![i as int]);
                        assert forall|row: RowModel| #[trigger]
                            rows(list@).contains(row) <==> is_row(more, row) by {
                            lemma_grown(apps, i as int, row);
                            assert(rows(prior).contains(row) <==> is_row(seen, row));
                        }
                    }
                },
            }
        }
    }
    assert(apps.take(n as int) == apps);
    list
}

/// The names of the applications in lower case, and their categories.
fn lowered_keys(applications: &Vec<(String, AppEntry)>) -> (res: (Vec<String>, Vec<String>))
    ensures
        keys_of(res.0@, res.1@) == lower_keys(catalog::app_views(applications@)),
        res.0@.len() == applications@.len(),
        res.1@.len() == applications@.len(),
{
    let mut names: Vec<String> = Vec::new();
    let mut categories: Vec<String> = Vec::new();
    let n: usize = applications.len();
    let ghost keys = lower_keys(catalog::app_views(applications@));
    for i in 0..n
        invariant
            n == applications@.len(),
            keys == lower_keys(catalog::app_views(applications@)),
            names@.len() == i,
            categories@.len() == i,
            text::strings(names@) == keys.names.take(i as int),
            text::strings(categories@) == keys.categories.take(i as int),
    {
        let ghost sofar = (names@, categories@);
        names.push(lowered(applications[i].0.as_str()));
        categories.push(lowered(applications[i].1.category.as_str()));
        proof {
            assert(text::strings(names@) =~= text::strings(sofar.0).push(keys.names[i as int]));
            assert(text::strings(categories@) =~= text::strings(sofar.1).push(
                keys.categories[i as int],
            ));
            assert(keys.names.take(i + 1) =~= keys.names.take(i as int).push(keys.names[i as int]));
            assert(keys.categories.take(i + 1) =~= keys.categories.take(i as int).push(
                keys.categories[i as int],
            ));
        }
    }
    assert(keys.names.take(n as int) == keys.names);
    assert(keys.categories.take(n as int) == keys.categories);
    (names, categories)
}

/// Groups the applications for display: those without a category are rows of
/// their own, those of a category share a section, and all rows are sorted by
/// name or category, in lower case.
pub fn build_display(applications: &Vec<(String, AppEntry)>) -> (res: Vec<DisplayItem>)
    ensures
        is_display(
            catalog::app_views(applications@),
            lower_keys(catalog::app_views(applications@)),
            rows(res@),
        ),
{
    let (names, categories) = lowered_keys(applications);
    arrange(applications, &names, &categories)
}

/// How one more application changes what belongs in the list.
proof fn lemma_grown(apps: Seq<(Seq<char>, AppModel)>, i: int, row: RowModel)
    requires
        0 <= i < apps.len(),
    ensures
        ({
            let seen = apps.take(i);
            let more = apps.take(i + 1);
            let c = apps[i].1.category;
            match row {
                RowModel::App(j) => is_row(more, row) <==> is_row(seen, row) || (j == i && c.len()
                    == 0),
                RowModel::Section(d, inside) => if d == c {
                    is_row(more, row) <==> d.len() > 0 && inside == members(seen, d).push(i)
                } else {
                    is_row(more, row) <==> is_row(seen, row)
                },
            }
        }),
{
    let seen = apps.take(i);
    let more = apps.take(i + 1);
    assert(more.drop_last() == seen);
    assert(more.last() == apps[i]);
    if let RowModel::App(j) = row {
        if 0 <= j < i {
            assert(more[j] == seen[j]);
        }
    }
}

/// The list stays complete when the section of the new application's category
/// gets it as a member.
proof fn lemma_section_grown(
    apps: Seq<(Seq<char>, AppModel)>,
    keys: Keys,
    i: int,
    prior: Seq<RowModel>,
    after: Seq<RowModel>,
    k: int,
)
    requires
        0 <= i < apps.len(),
        apps[i].1.category.len() > 0,
        0 <= k < prior.len(),
        in_order(keys, prior),
        is_complete(apps.take(i), prior),
        prior[k] == RowModel::Section(
            apps[i].1.category,
            members(apps.take(i), apps[i].1.category),
        ),
        after == prior.update(
            k,
            RowModel::Section(apps[i].1.category, members(apps.take(i + 1), apps[i].1.category)),
        ),
    ensures
        is_complete(apps.take(i + 1), after),
{
    let c = apps[i].1.category;
    let seen = apps.take(i);
    let more = apps.take(i + 1);
    assert(more.drop_last() == seen);
    assert(more.last() == apps[i]);
    let grown = RowModel::Section(c, members(more, c));
    assert forall|row: RowModel| #[trigger] after.contains(row) <==> is_row(more, row) by {
        lemma_grown(apps, i, row);
        if after.contains(row) {
            let j = choose|j: int| 0 <= j < after.len() && after[j] == row;
            if j == k {
                assert(row == grown);
            } else {
                assert(prior[j] == row);
                assert(prior.contains(row));
                assert(is_row(seen, row));
                if let RowModel::Section(d, _) = row {
                    if d == c {
                        assert(row == prior[k]);
                        lemma_total(keys, row, row);
                        if j < k {
                            assert(goes_before(keys, prior[j], prior[k]));
                        } else {
                            assert(goes_before(keys, prior[k], prior[j]));
                        }
                    }
                }
            }
        }
        if is_row(more, row) {
            if row == grown {
                assert(after[k] == row);
            } else {
                assert(is_row(seen, row));
                assert(prior.contains(row));
                let j = choose|j: int| 0 <= j < prior.len() && prior[j] == row;
                if j == k {
                    assert(row == prior[k]);
                } else {
                    assert(after[j] == row);
                }
            }
        }
    }
}

// ------------------------------------------------------------------------ laws

/// The row shows the application at position `i`.
pub open spec fn shows(row: RowModel, i: int) -> bool {
    match row {
        RowModel::App(j) => j == i,
        RowModel::Section(_, inside) => inside.contains(i),
    }
}

/// Every application of the catalog is shown by exactly one row, and there
/// exactly once.
pub proof fn every_application_is_shown_once(
    apps: Seq<(Seq<char>, AppModel)>,
    keys: Keys,
    list: Seq<RowModel>,
    i: int,
)
    requires
        is_display(apps, keys, list),
        0 <= i < apps.len(),
    ensures
        exists|k: int| #![trigger list[k]]
            {
                &&& 0 <= k < list.len()
                &&& shows(list[k], i)
                &&& forall|l: int| 0 <= l < list.len() && l != k ==> !shows(#[trigger] list[l], i)
                &&& (list[k] matches RowModel::Section(_, inside) ==> forall|a: int, b: int|
                    0 <= a < b < inside.len() ==> inside[a] != inside[b])
            },
{
    let c = apps[i].1.category;
    let row = if c.len() == 0 {
        RowModel::App(i)
    } else {
        RowModel::Section(c, members(apps, c))
    };
    lemma_members(apps, c);
    if c.len() > 0 {
        assert(members(apps, c).contains(i));
    }
    assert(is_row(apps, row));
    assert(list.contains(row));
    let k = choose|k: int| 0 <= k < list.len() && list[k] == row;
    assert forall|l: int| 0 <= l < list.len() && l != k implies !shows(#[trigger] list[l], i) by {
        assert(list.contains(list[l]));
        assert(is_row(apps, list[l]));
        if shows(list[l], i) {
            if let RowModel::Section(d, inside) = list[l] {
                lemma_members(apps, d);
                assert(members(apps, d).contains(i));
            }
            assert(list[l] == row);
            lemma_total(keys, row, row);
            if l < k {
                assert(goes_before(keys, list[l], list[k]));
            } else {
                assert(goes_before(keys, list[k], list[l]));
            }
        }
    }
    assert(shows(list[k], i));
    if let RowModel::Section(_, inside) = list[k] {
        assert(inside == members(apps, c));
    }
}

/// The applications and their keys determine the list.
pub proof fn display_is_determined(
    apps: Seq<(Seq<char>, AppModel)>,
    keys: Keys,
    a: Seq<RowModel>,
    b: Seq<RowModel>,
)
    requires
        is_display(apps, keys, a),
        is_display(apps, keys, b),
    ensures
        a == b,
{
    let n = if a.len() < b.len() {
        a.len()
    } else {
        b.len()
    } as int;
    assert forall|k: int| 0 <= k < n implies a[k] == b[k] by {
        lemma_same_at(apps, keys, a, b, k);
    }
    lemma_no_more(apps, keys, a, b);
    lemma_no_more(apps, keys, b, a);
    assert(a =~= b);
}

proof fn lemma_same_at(
    apps: Seq<(Seq<char>, AppModel)>,
    keys: Keys,
    a: Seq<RowModel>,
    b: Seq<RowModel>,
    k: int,
)
    requires
        is_display(apps, keys, a),
        is_display(apps, keys, b),
        0 <= k < a.len(),
        k < b.len(),
    ensures
        a[k] == b[k],
    decreases k,
{
    assert forall|j: int| 0 <= j < k implies a[j] == b[j] by {
        lemma_same_at(apps, keys, a, b, j);
    }
    if a[k] != b[k] {
        assert(a.contains(a[k]));
        assert(b.contains(b[k]));
        assert(b.contains(a[k]));
        assert(a.contains(b[k]));
        let p = choose|p: int| 0 <= p < b.len() && b[p] == a[k];
        let q = choose|q: int| 0 <= q < a.len() && a[q] == b[k];
        lemma_total(keys, a[k], b[k]);
        if p < k {
            assert(goes_before(keys, a[p], a[k]));
        }
        if q < k {
            assert(goes_before(keys, b[q], b[k]));
            lemma_total(keys, b[k], b[k]);
        }
        assert(goes_before(keys, b[k], b[p]));
        assert(goes_before(keys, a[k], a[q]));
    }
}

proof fn lemma_no_more(
    apps: Seq<(Seq<char>, AppModel)>,
    keys: Keys,
    a: Seq<RowModel>,
    b: Seq<RowModel>,
)
    requires
        is_display(apps, keys, a),
        is_display(apps, keys, b),
        forall|k: int| 0 <= k < a.len() && k < b.len() ==> a[k] == b[k],
    ensures
        b.len() <= a.len(),
{
    if a.len() < b.len() {
        let last = b[a.len() as int];
        assert(b.contains(last));
        assert(a.contains(last));
        let p = choose|p: int| 0 <= p < a.len() && a[p] == last;
        assert(goes_before(keys, b[p], b[a.len() as int]));
        lemma_total(keys, last, last);
    }
}

/// A section goes by its category in lower case.
pub proof fn section_goes_by_its_category(
    apps: Seq<(Seq<char>, AppModel)>,
    category: Seq<char>,
    inside: Seq<int>,
)
    requires
        is_row(apps, RowModel::Section(category, inside)),
    ensures
        key(lower_keys(apps), RowModel::Section(category, inside)) == text::lowercase(category),
{
    lemma_members(apps, category);
    assert(members(apps, category).contains(inside[0]));
}

proof fn lemma_same_ascending(a: Seq<int>, b: Seq<int>)
    requires
        forall|k: int, l: int| 0 <= k < l < a.len() ==> #[trigger] a[k] < #[trigger] a[l],
        forall|k: int, l: int| 0 <= k < l < b.len() ==> #[trigger] b[k] < #[trigger] b[l],
        forall|i: int| #[trigger] a.contains(i) <==> b.contains(i),
    ensures
        a == b,
    decreases a.len(),
{
    if a.len() == 0 {
        if b.len() > 0 {
            assert(b.contains(b[0]));
            assert(a.contains(b[0]));
        }
        assert(a =~= b);
    } else {
        assert(a.contains(a.last()));
        assert(b.contains(a.last()));
        let q = choose|q: int| 0 <= q < b.len() && b[q] == a.last();
        assert(b.contains(b.last()));
        assert(a.contains(b.last()));
        let p = choose|p: int| 0 <= p < a.len() && a[p] == b.last();
        assert(a.last() == b.last()) by {
            if p < a.len() - 1 {
                assert(a[p] < a[a.len() - 1]);
            }
            if q < b.len() - 1 {
                assert(b[q] < b[b.len() - 1]);
            }
        }
        let x = a.drop_last();
        let y = b.drop_last();
        assert forall|i: int| #[trigger] x.contains(i) <==> y.contains(i) by {
            if x.contains(i) {
                let k = choose|k: int| 0 <= k < x.len() && x[k] == i;
                assert(a[k] == i && a[k] < a[a.len() - 1]);
                assert(a.contains(i));
                assert(b.contains(i));
                let m = choose|m: int| 0 <= m < b.len() && b[m] == i;
                assert(y[m] == i);
            }
            if y.contains(i) {
                let k = choose|k: int| 0 <= k < y.len() && y[k] == i;
                assert(b[k] == i && b[k] < b[b.len() - 1]);
                assert(b.contains(i));
                assert(a.contains(i));
                let m = choose|m: int| 0 <= m < a.len() && a[m] == i;
                assert(x[m] == i);
            }
        }
        lemma_same_ascending(x, y);
        assert(a =~= x.push(a.last()));
        assert(b =~= y.push(b.last()));
    }
}

/// The rows are the applications without a category, and for each category that
/// some application has a section with all the applications of the category, in
/// the order of the catalog.
pub proof fn rows_are_applications_and_categories(
    apps: Seq<(Seq<char>, AppModel)>,
    keys: Keys,
    list: Seq<RowModel>,
    i: int,
    category: Seq<char>,
    inside: Seq<int>,
)
    requires
        is_display(apps, keys, list),
    ensures
        list.contains(RowModel::App(i)) <==> 0 <= i < apps.len() && apps[i].1.category.len() == 0,
        list.contains(RowModel::Section(category, inside)) <==> {
            &&& category.len() > 0
            &&& inside.len() > 0
            &&& forall|k: int| #[trigger]
                inside.contains(k) <==> 0 <= k < apps.len() && apps[k].1.category == category
            &&& forall|k: int, l: int|
                0 <= k < l < inside.len() ==> #[trigger] inside[k] < #[trigger] inside[l]
        },
{
    let row = RowModel::Section(category, inside);
    assert(list.contains(RowModel::App(i)) <==> is_row(apps, RowModel::App(i)));
    assert(list.contains(row) <==> is_row(apps, row));
    lemma_members(apps, category);
    let m = members(apps, category);
    if inside.len() > 0 && (forall|k: int| #[trigger]
        inside.contains(k) <==> 0 <= k < apps.len() && apps[k].1.category == category) && (forall|
        k: int,
        l: int,
    |
        0 <= k < l < inside.len() ==> #[trigger] inside[k] < #[trigger] inside[l]) {
        assert forall|k: int| #[trigger] inside.contains(k) <==> m.contains(k) by {
            assert(m.contains(k) <==> 0 <= k < apps.len() && apps[k].1.category == category);
        }
        lemma_same_ascending(inside, m);
    }
}

/// What a row is titled: an application by its name, a section by its category.
pub open spec fn title(apps: Seq<(Seq<char>, AppModel)>, row: RowModel) -> Seq<char> {
    match row {
        RowModel::App(i) => apps[i].0,
        RowModel::Section(c, _) => c,
    }
}

/// The rows rise by their titles in lower case. Where these are the same,
/// applications come before sections, applications come as in the catalog, and
/// sections by their categories as they are written.
pub proof fn rows_rise_by_title(
    apps: Seq<(Seq<char>, AppModel)>,
    list: Seq<RowModel>,
    x: int,
    y: int,
)
    requires
        is_display(apps, lower_keys(apps), list),
        0 <= x < y < list.len(),
    ensures
        ({
            let a = text::lowercase(title(apps, list[x]));
            let b = text::lowercase(title(apps, list[y]));
            order::before(a, b) || a == b && match (list[x], list[y]) {
                (RowModel::App(i), RowModel::App(j)) => i < j,
                (RowModel::App(_), RowModel::Section(_, _)) => true,
                (RowModel::Section(_, _), RowModel::App(_)) => false,
                (RowModel::Section(c, _), RowModel::Section(d, _)) => order::before(c, d),
            }
        }),
{
    assert(list.contains(list[x]));
    assert(list.contains(list[y]));
    assert(is_row(apps, list[x]) && is_row(apps, list[y]));
    assert(goes_before(lower_keys(apps), list[x], list[y]));
    if let RowModel::Section(c, inside) = list[x] {
        section_goes_by_its_category(apps, c, inside);
    }
    if let RowModel::Section(c, inside) = list[y] {
        section_goes_by_its_category(apps, c, inside);
    }
}

/// With keys at hand, the rows rise by them in the same way: an application goes
/// by the key of its name, a section by that of its category.
pub proof fn rows_rise_by_key(
    apps: Seq<(Seq<char>, AppModel)>,
    keys: Keys,
    list: Seq<RowModel>,
    x: int,
    y: int,
)
    requires
        is_display(apps, keys, list),
        0 <= x < y < list.len(),
    ensures
        ({
            let a = match list[x] {
                RowModel::App(i) => keys.names[i],
                RowModel::Section(_, inside) => keys.categories[inside[0]],
            };
            let b = match list[y] {
                RowModel::App(i) => keys.names[i],
                RowModel::Section(_, inside) => keys.categories[inside[0]],
            };
            order::before(a, b) || a == b && match (list[x], list[y]) {
                (RowModel::App(i), RowModel::App(j)) => i < j,
                (RowModel::App(_), RowModel::Section(_, _)) => true,
                (RowModel::Section(_, _), RowModel::App(_)) => false,
                (RowModel::Section(c, _), RowModel::Section(d, _)) => order::before(c, d),
            }
        }),
{
    assert(goes_before(keys, list[x], list[y]));
}

/// Keys are those of the applications, one for one.
pub proof fn keys_are_one_for_one(
    apps: Seq<(Seq<char>, AppModel)>,
    names: Seq<String>,
    categories: Seq<String>,
    i: int,
)
    ensures
        lower_keys(apps).names.len() == apps.len(),
        lower_keys(apps).categories.len() == apps.len(),
        0 <= i < apps.len() ==> lower_keys(apps).names[i] == text::lowercase(apps[i].0)
            && lower_keys(apps).categories[i] == text::lowercase(apps[i].1.category),
        keys_of(names, categories).names.len() == names.len(),
        keys_of(names, categories).categories.len() == categories.len(),
        0 <= i < names.len() ==> keys_of(names, categories).names[i] == names[i]@,
        0 <= i < categories.len() ==> keys_of(names, categories).categories[i] == categories[i]@,
{
}

/// Rows are what they hold.
pub proof fn rows_hold_their_fields(items: Seq<DisplayItem>, k: int, l: int)
    ensures
        rows(items).len() == items.len(),
        0 <= k < items.len() ==> match items[k] {
            DisplayItem::App(i) => rows(items)[k] == RowModel::App(i as int),
            DisplayItem::Section(c, inside) => {
                &&& rows(items)[k] is Section
                &&& rows(items)[k]->Section_0 == c@
                &&& rows(items)[k]->Section_1.len() == inside@.len()
                &&& 0 <= l < inside@.len() ==> rows(items)[k]->Section_1[l] == inside@[l]
            },
        },
{
}

} // verus!

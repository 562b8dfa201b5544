//! Where is the user's Firefox running?
//!
//! Firefox puts a `lock` link into each profile, whose target `ip:+pid` names
//! the process that owns the profile. Profiles are on shared storage, so a
//! link can name a session on another machine.
use crate::command;
use crate::command::{with_argument, with_arguments, Invocation};
use crate::paths;
use crate::split;
use crate::split::{split_at_first, words_of};
use crate::text;
use crate::text::{chars_of, lossy, same, starts_with, text_of};
use vstd::prelude::*;
use vstd::string::*;

verus! {

/// The `lock` link of a profile, as it is on disk.
#[derive(Debug)]
pub struct RawLink {
    pub profile: Vec<u8>,
    pub target: Vec<u8>,
}

/// The `lock` link of a profile, as text.
#[derive(Debug)]
pub struct LockLink {
    pub profile: String,
    pub target: String,
}

/// A lock that a session on another machine holds.
#[derive(Debug)]
pub struct RemoteLock {
    pub profile: String,
    pub ip: String,
    pub pid: String,
    /// What the host lookup of `ip` wrote, if it ran.
    pub lookup: Option<Vec<u8>>,
}

impl View for LockLink {
    type V = (Seq<char>, Seq<char>);

    /// The profile and the target.
    open spec fn view(&self) -> (Seq<char>, Seq<char>) {
        (self.profile@, self.target@)
    }
}

/// What a remote lock says.
pub struct LockModel {
    pub profile: Seq<char>,
    pub ip: Seq<char>,
    pub pid: Seq<char>,
    pub lookup: Option<Seq<u8>>,
}

impl View for RemoteLock {
    type V = LockModel;

    open spec fn view(&self) -> LockModel {
        LockModel {
            profile: self.profile@,
            ip: self.ip@,
            pid: self.pid@,
            lookup: match self.lookup {
                Some(bytes) => Some(bytes@),
                None => None,
            },
        }
    }
}

/// The program that writes the addresses of this machine.
pub fn addresses_command() -> (res: Invocation)
    ensures
        res@ == command::plain("hostname"@, seq![paths::bytes("-I"@)]),
{
    with_argument("hostname", "-I")
}

/// The program that looks up the host with the address `ip`.
pub fn lookup_command(ip: &str) -> (res: Invocation)
    ensures
        res@ == command::plain("getent"@, seq![paths::bytes("hosts"@), paths::bytes(ip@)]),
{
    with_arguments("getent", "hosts", ip)
}

/// The addresses of this machine: the words that `hostname -I` wrote.
pub open spec fn addresses(output: Option<Seq<char>>) -> Seq<Seq<char>> {
    match output {
        Some(out) => split::words(out),
        None => seq![],
    }
}

/// The owner that a lock target names, where it is on another machine.
pub open spec fn remote_owner(target: Seq<char>, local: Seq<Seq<char>>) -> Option<
    (Seq<char>, Seq<char>),
> {
    match split::split_once(target, ":+"@) {
        Some((ip, pid)) => if text::begins(ip, "127."@) || local.contains(ip) {
            None
        } else {
            Some((ip, pid))
        },
        None => None,
    }
}

/// The remote locks among the links, in their order.
pub open spec fn remote(links: Seq<(Seq<char>, Seq<char>)>, local: Seq<Seq<char>>) -> Seq<LockModel>
    decreases links.len(),
{
    if links.len() == 0 {
        seq![]
    } else {
        let earlier = remote(links.drop_last(), local);
        match remote_owner(links.last().1, local) {
            Some((ip, pid)) => earlier.push(
                LockModel { profile: links.last().0, ip, pid, lookup: None },
            ),
            None => earlier,
        }
    }
}

/// What links say.
pub open spec fn link_views(links: Seq<LockLink>) -> Seq<(Seq<char>, Seq<char>)> {
    links.map_values(|l: LockLink| l@)
}

/// What links on disk say.
pub open spec fn link_texts(links: Seq<RawLink>) -> Seq<(Seq<char>, Seq<char>)> {
    links.map_values(|l: RawLink| (text::lossy_utf8(l.profile@), text::lossy_utf8(l.target@)))
}

/// What remote locks say.
pub open spec fn lock_views(locks: Seq<RemoteLock>) -> Seq<LockModel> {
    locks.map_values(|l: RemoteLock| l@)
}

/// The text in the output of a program that ran.
pub open spec fn output_text(output: Option<Vec<u8>>) -> Option<Seq<char>> {
    match output {
        Some(bytes) => Some(text::lossy_utf8(bytes@)),
        None => None,
    }
}

/// The addresses of this machine, from what `hostname -I` wrote.
pub fn local_addresses(output: Option<&str>) -> (res: Vec<String>)
    ensures
        text::strings(res@) == addresses(
            match output {
                Some(out) => Some(out@),
                None => None,
            },
        ),
{
    let mut res: Vec<String> = Vec::new();
    if let Some(out) = output {
        let chars = chars_of(out);
        let words = words_of(chars.as_slice());
        let n: usize = words.len();
        let ghost all = split::words(out@);
        for i in 0..n
            invariant
                n == words@.len(),
                text::pieces(words@) == all,
                text::strings(res@) == all.take(i as int),
        {
            let ghost sofar = res@;
            res.push(text_of(words[i]));
            proof {
                assert(all[i as int] == words@[i as int]@);
                assert(text::strings(res@) =~= text::strings(sofar).push(all[i as int]));
                assert(all.take(i + 1) =~= all.take(i as int).push(all[i as int]));
            }
        }
        assert(all.take(n as int) == all);
    } else {
        assert(text::strings(res@) =~= seq![]);
    }
    res
}

fn is_among(list: &Vec<String>, word: &[char]) -> (res: bool)
    ensures
        res == text::strings(list@).contains(word@),
{
    let n: usize = list.len();
    for i in 0..n
        invariant
            n == list@.len(),
            forall|j: int| 0 <= j < i ==> text::strings(list@)[j] != word@,
    {
        let item = chars_of(list[i].as_str());
        if same(item.as_slice(), word) {
            assert(text::strings(list@)[i as int] == word@);
            return true;
        }
    }
    false
}

/// The owner (address and process) that a lock target names, where it runs on
/// a machine other than the one with the addresses `local`.
pub fn remote_owner_of(target: &str, local: &Vec<String>) -> (res: Option<(String, String)>)
    ensures
        match res {
            Some((ip, pid)) => remote_owner(target@, text::strings(local@)) == Some((ip@, pid@)),
            None => remote_owner(target@, text::strings(local@)) is None,
        },
{
    let chars = chars_of(target);
    match split_at_first(chars.as_slice(), ":+") {
        Some((ip, pid)) => if starts_with(ip, "127.") || is_among(local, ip) {
            None
        } else {
            Some((text_of(ip), text_of(pid)))
        },
        None => None,
    }
}

/// The locks among `links` that other machines hold, for a machine with the
/// addresses `local`.
pub fn remote_locks_from(links: &Vec<LockLink>, local: &Vec<String>) -> (res: Vec<RemoteLock>)
    ensures
        lock_views(res@) == remote(link_views(links@), text::strings(local@)),
{
    let mut res: Vec<RemoteLock> = Vec::new();
    let n: usize = links.len();
    let ghost all = link_views(links@);
    let ghost here = text::strings(local@);
    assert(lock_views(res@) =~= remote(all.take(0), here));
    for i in 0..n
        invariant
            n == links@.len(),
            all == link_views(links@),
            here == text::strings(local@),
            lock_views(res@) == remote(all.take(i as int), here),
    {
        let ghost sofar = res@;
        proof {
            assert(all.take(i + 1).drop_last() == all.take(i as int));
            assert(all[i as int] == links@[i as int]@);
        }
        if let Some((ip, pid)) = remote_owner_of(links[i].target.as_str(), local) {
            res.push(RemoteLock { profile: links[i].profile.clone(), ip, pid, lookup: None });
            assert(lock_views(res@) =~= lock_views(sofar).push(res@.last()@));
        }
    }
    assert(all.take(n as int) == all);
    res
}

/// Links as text.
fn decode_links(links: &Vec<RawLink>) -> (res: Vec<LockLink>)
    ensures
        link_views(res@) == link_texts(links@),
{
    let mut res: Vec<LockLink> = Vec::new();
    let n: usize = links.len();
    let ghost all = link_texts(links@);
    for i in 0..n
        invariant
            n == links@.len(),
            all == link_texts(links@),
            link_views(res@) == all.take(i as int),
    {
        let ghost sofar = res@;
        let profile = lossy(links[i].profile.as_slice());
        let target = lossy(links[i].target.as_slice());
        res.push(LockLink { profile, target });
        proof {
            assert(link_views(res@) =~= link_views(sofar).push(all[i as int]));
            assert(all.take(i + 1) =~= all.take(i as int).push(all[i as int]));
        }
    }
    assert(all.take(n as int) == all);
    res
}

/// The locks among `links` that other machines hold. `hostname_output` is what
/// `hostname -I` wrote on this machine, if it ran.
pub fn remote_locks(links: &Vec<RawLink>, hostname_output: &Option<Vec<u8>>) -> (res: Vec<
    RemoteLock,
>)
    ensures
        lock_views(res@) == remote(link_texts(links@), addresses(output_text(*hostname_output))),
{
    let local = match hostname_output {
        Some(bytes) => local_addresses(Some(lossy(bytes.as_slice()).as_str())),
        None => local_addresses(None),
    };
    remote_locks_from(&decode_links(links), &local)
}

// --------------------------------------------------------------------- report

/// The name of the host with address `ip`: the second word that the lookup
/// wrote, or the address itself.
pub open spec fn host(lookup: Option<Seq<char>>, ip: Seq<char>) -> Seq<char> {
    match lookup {
        Some(out) => if split::words(out).len() > 1 {
            split::words(out)[1]
        } else {
            ip
        },
        None => ip,
    }
}

/// The name of a host, from what the lookup of its address wrote.
pub fn host_of(lookup: Option<&str>, ip: &str) -> (res: String)
    ensures
        res@ == host(
            match lookup {
                Some(out) => Some(out@),
                None => None,
            },
            ip@,
        ),
{
    if let Some(out) = lookup {
        let chars = chars_of(out);
        let words = words_of(chars.as_slice());
        assert(words@.len() == split::words(out@).len());
        if words.len() > 1 {
            assert(split::words(out@)[1] == words@[1]@);
            return text_of(words[1]);
        }
    }
    ip.to_owned()
}

/// What the report says of one lock.
pub open spec fn block(host: Seq<char>, ip: Seq<char>, pid: Seq<char>, profile: Seq<char>) -> Seq<
    char,
> {
    "["@ + host + "] ("@ + ip + ") firefox PID "@ + pid
        + " holds the profile lock\n    (profile "@ + profile
        + ")\n    to close it from here:  ssh "@ + host + "  then  kill "@ + pid
}

/// What a report says of one lock.
pub fn lock_block(host: &str, ip: &str, pid: &str, profile: &str) -> (res: String)
    ensures
        res@ == block(host@, ip@, pid@, profile@),
{
    "[".to_owned().concat(host).concat("] (").concat(ip).concat(") firefox PID ").concat(
        pid,
    ).concat(" holds the profile lock\n    (profile ").concat(profile).concat(
        ")\n    to close it from here:  ssh ",
    ).concat(host).concat("  then  kill ").concat(pid)
}

/// The advice that closes a report.
pub const STALE_LOCK_ADVICE: &'static str =
    "If Firefox is NOT actually running there, the lock is stale:\n    delete the 'lock' and '.parentlock' files in that profile folder\n    under ~/.mozilla/firefox/.";

/// The text that a lookup wrote.
pub open spec fn lookup_text(lookup: Option<Seq<u8>>) -> Option<Seq<char>> {
    match lookup {
        Some(bytes) => Some(text::lossy_utf8(bytes)),
        None => None,
    }
}

/// The host names of the locks.
pub open spec fn host_names(locks: Seq<LockModel>) -> Seq<Seq<char>> {
    locks.map_values(|l: LockModel| host(lookup_text(l.lookup), l.ip))
}

/// The blocks of the locks, in order, each with an empty line below.
pub open spec fn blocks(locks: Seq<LockModel>, hosts: Seq<Seq<char>>) -> Seq<char>
    decreases locks.len(),
{
    if locks.len() == 0 {
        seq![]
    } else {
        let i = locks.len() - 1;
        let l = locks[i];
        blocks(locks.drop_last(), hosts) + block(hosts[i], l.ip, l.pid, l.profile) + "\n\n"@
    }
}

/// The report on the remote locks: a block for each, then the advice. Without
/// a remote lock there is nothing to report.
pub open spec fn lock_report(locks: Seq<LockModel>, hosts: Seq<Seq<char>>) -> Option<Seq<char>> {
    if locks.len() == 0 {
        None
    } else {
        Some(blocks(locks, hosts) + STALE_LOCK_ADVICE@)
    }
}

/// Reports which machines hold the user's profiles locked, if any does.
/// `hosts` has the name of the machine of each lock.
pub fn lock_report_for(locks: &Vec<RemoteLock>, hosts: &Vec<String>) -> (res: Option<String>)
    requires
        hosts@.len() == locks@.len(),
    ensures
        text::text_view(res) == lock_report(lock_views(locks@), text::strings(hosts@)),
{
    let n: usize = locks.len();
    if n == 0 {
        return None;
    }
    let ghost all = lock_views(locks@);
    let ghost names = text::strings(hosts@);
    let mut res = String::new();
    assert(res@ =~= blocks(all.take(0), names));
    for i in 0..n
        invariant
            n == locks@.len(),
            n == hosts@.len(),
            all == lock_views(locks@),
            names == text::strings(hosts@),
            res@ == blocks(all.take(i as int), names),
    {
        let l = &locks[i];
        proof {
            assert(all.take(i + 1).drop_last() == all.take(i as int));
            assert(all[i as int] == l@);
            assert(names[i as int] == hosts@[i as int]@);
        }
        let entry = lock_block(
            hosts[i].as_str(),
            l.ip.as_str(),
            l.pid.as_str(),
            l.profile.as_str(),
        );
        res.append(entry.as_str());
        res.append("\n\n");
    }
    assert(all.take(n as int) == all);
    res.append(STALE_LOCK_ADVICE);
    Some(res)
}

/// Reports which machines hold the user's profiles locked, if any does.
pub fn firefox_remote_lock_report(locks: &Vec<RemoteLock>) -> (res: Option<String>)
    ensures
        text::text_view(res) == lock_report(
            lock_views(locks@),
            host_names(lock_views(locks@)),
        ),
{
    let n: usize = locks.len();
    let ghost names = host_names(lock_views(locks@));
    let mut hosts: Vec<String> = Vec::new();
    for i in 0..n
        invariant
            n == locks@.len(),
            names == host_names(lock_views(locks@)),
            hosts@.len() == i,
            text::strings(hosts@) == names.take(i as int),
    {
        let l = &locks[i];
        let ghost sofar = hosts@;
        let name = match &l.lookup {
            Some(bytes) => host_of(Some(lossy(bytes.as_slice()).as_str()), l.ip.as_str()),
            None => host_of(None, l.ip.as_str()),
        };
        hosts.push(name);
        proof {
            assert(lock_views(locks@)[i as int] == l@);
            assert(text::strings(hosts@) =~= text::strings(sofar).push(names[i as int]));
            assert(names.take(i + 1) =~= names.take(i as int).push(names[i as int]));
        }
    }
    assert(names.take(n as int) == names);
    lock_report_for(locks, &hosts)
}

// ------------------------------------------------------------------------ laws

/// A lock of this machine is harmless: a target with a loopback address or one
/// of the machine's own names no remote owner.
pub proof fn own_lock_is_not_remote(ip: Seq<char>, pid: Seq<char>, local: Seq<Seq<char>>)
    requires
        !text::has_text(ip, ":+"@),
        text::begins(ip, "127."@) || local.contains(ip),
    ensures
        remote_owner(ip + ":+"@ + pid, local) is None,
{
    lemma_target_splits(ip, pid);
}

/// Any other target names its address and its process.
pub proof fn foreign_lock_is_remote(ip: Seq<char>, pid: Seq<char>, local: Seq<Seq<char>>)
    requires
        !text::has_text(ip, ":+"@),
        !text::begins(ip, "127."@),
        !local.contains(ip),
    ensures
        remote_owner(ip + ":+"@ + pid, local) == Some((ip, pid)),
{
    lemma_target_splits(ip, pid);
}

proof fn lemma_target_splits(ip: Seq<char>, pid: Seq<char>)
    requires
        !text::has_text(ip, ":+"@),
    ensures
        split::split_once(ip + ":+"@ + pid, ":+"@) == Some((ip, pid)),
{
    reveal_strlit(":+");
    let p = ":+"@;
    let s = ip + p + pid;
    let at = ip.len() as int;
    assert(s.subrange(at, at + 2) =~= p);
    assert forall|j: int| j < at implies !text::occurs_at(s, p, j) by {
        if text::occurs_at(s, p, j) {
            if j == at - 1 {
                assert(s.subrange(j, j + 2)[1] == s[at]);
            } else {
                assert(ip.subrange(j, j + 2) =~= s.subrange(j, j + 2));
                assert(text::occurs_at(ip, p, j));
            }
        }
    }
    text::lemma_find_is(s, p, at);
    assert(s.take(at) =~= ip);
    assert(s.skip(at + 2) =~= pid);
}

/// The locks are those that were found, whatever the lookups wrote.
pub open spec fn same_locks(locks: Seq<LockModel>, found: Seq<LockModel>) -> bool {
    &&& locks.len() == found.len()
    &&& forall|k: int|
        0 <= k < locks.len() ==> {
            &&& (#[trigger] locks[k]).profile == found[k].profile
            &&& locks[k].ip == found[k].ip
            &&& locks[k].pid == found[k].pid
        }
}

/// There is a report exactly where some link names a remote owner, whatever the
/// lookups of the hosts wrote.
pub proof fn report_where_a_lock_is_remote(
    links: Seq<(Seq<char>, Seq<char>)>,
    local: Seq<Seq<char>>,
    locks: Seq<LockModel>,
)
    requires
        same_locks(locks, remote(links, local)),
    ensures
        lock_report(locks, host_names(locks)) is Some <==> exists|i: int|
            0 <= i < links.len() && remote_owner((#[trigger] links[i]).1, local) is Some,
{
    lemma_some_is_remote(links, local);
}

proof fn lemma_some_is_remote(links: Seq<(Seq<char>, Seq<char>)>, local: Seq<Seq<char>>)
    ensures
        remote(links, local).len() > 0 <==> exists|i: int|
            0 <= i < links.len() && remote_owner((#[trigger] links[i]).1, local) is Some,
    decreases links.len(),
{
    if links.len() > 0 {
        let rest = links.drop_last();
        lemma_some_is_remote(rest, local);
        if exists|i: int|
            0 <= i < rest.len() && remote_owner((#[trigger] rest[i]).1, local) is Some {
            let i = choose|i: int|
                0 <= i < rest.len() && remote_owner((#[trigger] rest[i]).1, local) is Some;
            assert(links[i] == rest[i]);
        }
        if exists|i: int|
            0 <= i < links.len() && remote_owner((#[trigger] links[i]).1, local) is Some {
            let i = choose|i: int|
                0 <= i < links.len() && remote_owner((#[trigger] links[i]).1, local) is Some;
            if i < rest.len() {
                assert(rest[i] == links[i]);
            } else {
                assert(links[i] == links.last());
            }
        }
    }
}

/// The report says of every link with a remote owner who owns it and on which
/// host, and closes with the advice.
pub proof fn every_remote_lock_is_reported(
    links: Seq<(Seq<char>, Seq<char>)>,
    local: Seq<Seq<char>>,
    locks: Seq<LockModel>,
    i: int,
)
    requires
        same_locks(locks, remote(links, local)),
        0 <= i < links.len(),
        remote_owner(links[i].1, local) is Some,
    ensures
        exists|k: int|
            {
                let (ip, pid) = remote_owner(links[i].1, local)->0;
                let report = lock_report(locks, host_names(locks))->0;
                &&& 0 <= k < locks.len()
                &&& (#[trigger] locks[k]).profile == links[i].0
                &&& locks[k].ip == ip
                &&& locks[k].pid == pid
                &&& text::has_text(
                    report,
                    block(host(lookup_text(locks[k].lookup), ip), ip, pid, links[i].0),
                )
                &&& report.skip(report.len() - STALE_LOCK_ADVICE@.len()) == STALE_LOCK_ADVICE@
            },
{
    let k = lemma_remote_has(links, local, i);
    let hosts = host_names(locks);
    let l = locks[k];
    let own = block(hosts[k], l.ip, l.pid, l.profile);
    let all = blocks(locks, hosts);
    let report = all + STALE_LOCK_ADVICE@;
    lemma_block_stands(locks, hosts, k);
    let at = choose|at: int| text::occurs_at(all, own, at);
    assert(report.subrange(at, at + own.len()) =~= all.subrange(at, at + own.len()));
    assert(text::occurs_at(report, own, at));
    assert(report.skip(report.len() - STALE_LOCK_ADVICE@.len()) =~= STALE_LOCK_ADVICE@);
    assert(hosts[k] == host(lookup_text(l.lookup), l.ip));
    assert(remote(links, local)[k].profile == links[i].0);
}

proof fn lemma_remote_has(
    links: Seq<(Seq<char>, Seq<char>)>,
    local: Seq<Seq<char>>,
    i: int,
) -> (k: int)
    requires
        0 <= i < links.len(),
        remote_owner(links[i].1, local) is Some,
    ensures
        0 <= k < remote(links, local).len(),
        remote(links, local)[k].profile == links[i].0,
        remote_owner(links[i].1, local) == Some(
            (remote(links, local)[k].ip, remote(links, local)[k].pid),
        ),
    decreases links.len(),
{
    let rest = links.drop_last();
    if i < rest.len() {
        assert(rest[i] == links[i]);
        lemma_remote_has(rest, local, i)
    } else {
        remote(links, local).len() - 1
    }
}

proof fn lemma_block_stands(locks: Seq<LockModel>, hosts: Seq<Seq<char>>, k: int)
    requires
        0 <= k < locks.len(),
    ensures
        text::has_text(
            blocks(locks, hosts),
            block(hosts[k], locks[k].ip, locks[k].pid, locks[k].profile),
        ),
    decreases locks.len(),
{
    let i = locks.len() - 1;
    let rest = locks.drop_last();
    let head = blocks(rest, hosts);
    let last = block(hosts[i], locks[i].ip, locks[i].pid, locks[i].profile);
    let all = blocks(locks, hosts);
    assert(all == head + last + "\n\n"@);
    let own = block(hosts[k], locks[k].ip, locks[k].pid, locks[k].profile);
    if k < i {
        lemma_block_stands(rest, hosts, k);
        let at = choose|at: int| text::occurs_at(head, own, at);
        assert(all.subrange(at, at + own.len()) =~= head.subrange(at, at + own.len()));
        assert(text::occurs_at(all, own, at));
    } else {
        let at = head.len() as int;
        assert(all.subrange(at, at + own.len()) =~= own);
        assert(text::occurs_at(all, own, at));
    }
}

/// A target without `:+` names no owner.
pub proof fn target_without_separator_names_nobody(target: Seq<char>, local: Seq<Seq<char>>)
    requires
        !text::has_text(target, ":+"@),
    ensures
        remote_owner(target, local) is None,
{
    text::lemma_find(target, ":+"@);
}

/// The locks of links are those of the first ones, then those of the others;
/// and the lock of one link is remote exactly where its target names a remote
/// owner, under the link's profile.
pub proof fn locks_keep_the_order_of_links(
    a: Seq<(Seq<char>, Seq<char>)>,
    b: Seq<(Seq<char>, Seq<char>)>,
    link: (Seq<char>, Seq<char>),
    local: Seq<Seq<char>>,
)
    ensures
        remote(a + b, local) == remote(a, local) + remote(b, local),
        remote_owner(link.1, local) is None ==> remote(seq![link], local) == Seq::<
            LockModel,
        >::empty(),
        remote_owner(link.1, local) matches Some((ip, pid)) ==> {
            let locks = remote(seq![link], local);
            &&& locks.len() == 1
            &&& locks[0].profile == link.0
            &&& locks[0].ip == ip
            &&& locks[0].pid == pid
            &&& locks[0].lookup is None
        },
    decreases b.len(),
{
    let one = seq![link];
    assert(one.drop_last() =~= Seq::empty());
    assert(remote(one.drop_last(), local) =~= Seq::<LockModel>::empty());
    if b.len() == 0 {
        assert(a + b =~= a);
        assert(remote(a, local) + remote(b, local) =~= remote(a, local));
    } else {
        let rest = b.drop_last();
        locks_keep_the_order_of_links(a, rest, link, local);
        assert((a + b).drop_last() =~= a + rest);
        assert((a + b).last() == b.last());
        assert(remote(a + b, local) =~= remote(a, local) + remote(b, local));
    }
}

/// The addresses of this machine are the words that were written; without
/// output there are none.
pub proof fn addresses_are_words(out: Seq<char>)
    ensures
        addresses(Some(out)) == split::words(out),
        addresses(None).len() == 0,
{
}

/// A host goes by the second word of the lookup, where there is one, and by its
/// address otherwise.
pub proof fn host_goes_by_the_second_word(
    gap: Seq<char>,
    first: Seq<char>,
    space: Seq<char>,
    second: Seq<char>,
    rest: Seq<char>,
    ip: Seq<char>,
)
    requires
        forall|i: int| 0 <= i < gap.len() ==> text::white_space(#[trigger] gap[i]),
        forall|i: int| 0 <= i < space.len() ==> text::white_space(#[trigger] space[i]),
        forall|i: int| 0 <= i < first.len() ==> !text::white_space(#[trigger] first[i]),
        forall|i: int| 0 <= i < second.len() ==> !text::white_space(#[trigger] second[i]),
        first.len() > 0,
        second.len() > 0,
        space.len() > 0,
        rest.len() > 0 ==> text::white_space(rest[0]),
    ensures
        host(Some(gap + first + (space + second + rest)), ip) == second,
        host(Some(gap + first + space), ip) == ip,
        host(Some(gap), ip) == ip,
        host(None, ip) == ip,
{
    let tail = space + second + rest;
    assert(tail[0] == space[0]);
    split::words_end_at_white_space(gap, first, tail);
    split::words_end_at_white_space(space, second, rest);
    split::words_end_at_white_space(gap, first, space);
    split::words_end_at_white_space(space, second, Seq::empty());
    assert(split::words(gap + first + tail)[1] == second);
    assert(split::words(gap + first + space).len() == 1);
}

/// What a report says of a lock: which host, which process, which profile, and
/// how to close it.
pub proof fn block_says_who_holds_the_lock(
    host: Seq<char>,
    ip: Seq<char>,
    pid: Seq<char>,
    profile: Seq<char>,
)
    ensures
        block(host, ip, pid, profile) == ("["@ + host + "] ("@ + ip + ")"@) + (" firefox PID "@ + pid
            + " holds the profile lock"@) + ("\n    (profile "@ + profile + ")"@) + (
        "\n    to close it from here:  ssh "@ + host + "  then  kill "@ + pid),
{
    reveal_strlit(") firefox PID ");
    reveal_strlit(")");
    reveal_strlit(" firefox PID ");
    reveal_strlit(" holds the profile lock\n    (profile ");
    reveal_strlit(" holds the profile lock");
    reveal_strlit("\n    (profile ");
    reveal_strlit(")\n    to close it from here:  ssh ");
    reveal_strlit("\n    to close it from here:  ssh ");
    assert(") firefox PID "@ =~= ")"@ + " firefox PID "@);
    assert(" holds the profile lock\n    (profile "@ =~= " holds the profile lock"@
        + "\n    (profile "@);
    assert(")\n    to close it from here:  ssh "@ =~= ")"@
        + "\n    to close it from here:  ssh "@);
    assert(block(host, ip, pid, profile) =~= ("["@ + host + "] ("@ + ip + ")"@) + (" firefox PID "@
        + pid + " holds the profile lock"@) + ("\n    (profile "@ + profile + ")"@) + (
    "\n    to close it from here:  ssh "@ + host + "  then  kill "@ + pid));
}

/// A report is a block for each lock, in order, each followed by an empty line,
/// and the advice on stale locks.
pub proof fn report_is_blocks_and_advice(
    a: Seq<LockModel>,
    b: Seq<LockModel>,
    ha: Seq<Seq<char>>,
    hb: Seq<Seq<char>>,
)
    requires
        ha.len() == a.len(),
        hb.len() == b.len(),
    ensures
        blocks(a + b, ha + hb) == blocks(a, ha) + blocks(b, hb),
        a.len() == 1 ==> blocks(a, ha) == block(ha[0], a[0].ip, a[0].pid, a[0].profile) + "\n\n"@,
        a.len() == 0 ==> lock_report(a, ha) is None,
        a.len() > 0 ==> lock_report(a, ha) == Some(
            blocks(a, ha)
                + "If Firefox is NOT actually running there, the lock is stale:\n    delete the 'lock' and '.parentlock' files in that profile folder\n    under ~/.mozilla/firefox/."@,
        ),
    decreases b.len(),
{
    lemma_blocks_first(a, ha, hb);
    if a.len() == 1 {
        assert(a.drop_last() =~= Seq::empty());
        assert(blocks(a.drop_last(), ha) =~= Seq::<char>::empty());
        assert(blocks(a, ha) =~= block(ha[0], a[0].ip, a[0].pid, a[0].profile) + "\n\n"@);
    }
    if b.len() == 0 {
        assert(a + b =~= a);
        assert(blocks(a, ha) + blocks(b, hb) =~= blocks(a, ha));
    } else {
        let rest = b.drop_last();
        let hr = hb.drop_last();
        report_is_blocks_and_advice(a, rest, ha, hr);
        assert((a + b).drop_last() =~= a + rest);
        assert(ha + hb =~= (ha + hr) + seq![hb.last()]);
        lemma_blocks_first(a + rest, ha + hr, seq![hb.last()]);
        assert(hb =~= hr + seq![hb.last()]);
        lemma_blocks_first(rest, hr, seq![hb.last()]);
        assert((a + b).last() == b.last());
        assert((ha + hb)[(a + b).len() - 1] == hb[b.len() - 1]);
        assert(blocks(a + b, ha + hb) =~= blocks(a, ha) + blocks(b, hb));
    }
}

/// Only the names of the locks' own hosts count.
proof fn lemma_blocks_first(a: Seq<LockModel>, ha: Seq<Seq<char>>, more: Seq<Seq<char>>)
    requires
        ha.len() >= a.len(),
    ensures
        blocks(a, ha + more) == blocks(a, ha),
    decreases a.len(),
{
    if a.len() > 0 {
        lemma_blocks_first(a.drop_last(), ha, more);
    }
}

/// Each host name is that of its lock, by what the lookup wrote.
pub proof fn hosts_are_those_of_the_locks(locks: Seq<LockModel>, i: int)
    requires
        0 <= i < locks.len(),
    ensures
        host_names(locks).len() == locks.len(),
        locks[i].lookup is None ==> host_names(locks)[i] == locks[i].ip,
        locks[i].lookup matches Some(bytes) ==> host_names(locks)[i] == host(
            Some(text::lossy_utf8(bytes)),
            locks[i].ip,
        ),
{
}

/// Links on disk are read as text, one for one.
pub proof fn links_are_read_as_text(links: Seq<RawLink>, texts: Seq<LockLink>, i: int)
    ensures
        link_texts(links).len() == links.len(),
        0 <= i < links.len() ==> link_texts(links)[i] == (
            text::lossy_utf8(links[i].profile@),
            text::lossy_utf8(links[i].target@),
        ),
        link_views(texts).len() == texts.len(),
        0 <= i < texts.len() ==> link_views(texts)[i] == (texts[i].profile@, texts[i].target@),
{
}

/// A remote lock and the output of a program are what they hold.
pub proof fn lock_views_hold_the_fields(
    locks: Seq<RemoteLock>,
    i: int,
    output: Option<Vec<u8>>,
)
    ensures
        lock_views(locks).len() == locks.len(),
        0 <= i < locks.len() ==> {
            let l = lock_views(locks)[i];
            &&& l.profile == locks[i].profile@
            &&& l.ip == locks[i].ip@
            &&& l.pid == locks[i].pid@
            &&& locks[i].lookup is None <==> l.lookup is None
            &&& locks[i].lookup matches Some(bytes) ==> l.lookup == Some(bytes@)
        },
        output is None <==> output_text(output) is None,
        output matches Some(bytes) ==> output_text(output) == Some(text::lossy_utf8(bytes@)),
{
}

} // verus!

//! The hosts that are tracked, and sets of host addresses.

use crate::host_state::{HostState, HostView};
use vstd::prelude::*;

verus! {

/// A tracked host.
#[derive(Debug)]
pub struct HostEntry {
    pub addr: String,
    pub host: HostState,
}

/// A tracked host as a mathematical value.
#[verifier::ext_equal]
pub struct EntryView {
    pub addr: Seq<char>,
    pub host: HostView,
}

impl View for HostEntry {
    type V = EntryView;

    open spec fn view(&self) -> EntryView {
        EntryView { addr: self.addr@, host: self.host@ }
    }
}

/// The tracked hosts, in the order in which they were first seen.
#[derive(Debug)]
pub struct HostTable {
    pub entries: Vec<HostEntry>,
}

impl View for HostTable {
    type V = Seq<EntryView>;

    open spec fn view(&self) -> Seq<EntryView> {
        self.entries@.map_values(|entry: HostEntry| entry@)
    }
}

/// No address is tracked twice.
pub open spec fn distinct(hosts: Seq<EntryView>) -> bool {
    forall|i: int, j: int| 0 <= i < j < hosts.len() ==> hosts[i].addr != hosts[j].addr
}

/// Whether an address is tracked at the index.
pub open spec fn is_at(hosts: Seq<EntryView>, addr: Seq<char>, i: int) -> bool {
    0 <= i < hosts.len() && hosts[i].addr == addr
}

/// Whether an address is tracked.
pub open spec fn tracks(hosts: Seq<EntryView>, addr: Seq<char>) -> bool {
    exists|i: int| is_at(hosts, addr, i)
}

/// Where an address is tracked.
pub open spec fn place(hosts: Seq<EntryView>, addr: Seq<char>) -> int {
    choose|i: int| is_at(hosts, addr, i)
}

/// The state of the host with an address.
pub open spec fn lookup(hosts: Seq<EntryView>, addr: Seq<char>) -> Option<HostView> {
    if tracks(hosts, addr) {
        Some(hosts[place(hosts, addr)].host)
    } else {
        None
    }
}

/// The hosts with a new state for one address, which comes last where it was not tracked.
pub open spec fn with_host(hosts: Seq<EntryView>, addr: Seq<char>, host: HostView) -> Seq<
    EntryView,
> {
    if tracks(hosts, addr) {
        hosts.update(place(hosts, addr), EntryView { addr, host })
    } else {
        hosts.push(EntryView { addr, host })
    }
}

/// An address that occurs at an index of distinct hosts occurs nowhere else.
pub proof fn lemma_place(hosts: Seq<EntryView>, addr: Seq<char>, i: int)
    requires
        distinct(hosts),
        is_at(hosts, addr, i),
    ensures
        tracks(hosts, addr),
        place(hosts, addr) == i,
        lookup(hosts, addr) == Some(hosts[i].host),
{
    let j = place(hosts, addr);
    assert(is_at(hosts, addr, j));
    if i < j {
        assert(hosts[i].addr != hosts[j].addr);
    }
    if j < i {
        assert(hosts[j].addr != hosts[i].addr);
    }
}

/// A new state for one address leaves all the others alone and tracks none twice.
pub proof fn lemma_with_host(hosts: Seq<EntryView>, addr: Seq<char>, host: HostView)
    requires
        distinct(hosts),
    ensures
        distinct(with_host(hosts, addr, host)),
        lookup(with_host(hosts, addr, host), addr) == Some(host),
        forall|other: Seq<char>|
            other != addr ==> #[trigger] lookup(with_host(hosts, addr, host), other) == lookup(
                hosts,
                other,
            ),
{
    let after = with_host(hosts, addr, host);
    let spot = if tracks(hosts, addr) {
        place(hosts, addr)
    } else {
        hosts.len() as int
    };
    assert(tracks(hosts, addr) ==> is_at(hosts, addr, spot));
    assert forall|i: int, j: int| 0 <= i < j < after.len() implies after[i].addr
        != after[j].addr by {
        if !tracks(hosts, addr) {
            assert(!is_at(hosts, addr, i));
            assert(!is_at(hosts, addr, j));
        }
    }
    assert(is_at(after, addr, spot));
    lemma_place(after, addr, spot);
    assert forall|other: Seq<char>| other != addr implies #[trigger] lookup(after, other)
        == lookup(hosts, other) by {
        if tracks(hosts, other) {
            let i = place(hosts, other);
            assert(is_at(hosts, other, i));
            assert(is_at(after, other, i));
            lemma_place(after, other, i);
        } else if tracks(after, other) {
            let i = place(after, other);
            assert(is_at(after, other, i));
            assert(is_at(hosts, other, i));
        }
    }
}

impl HostTable {
    pub open spec fn wf(&self) -> bool {
        distinct(self@)
    }

    /// No hosts.
    pub fn new() -> (r: HostTable)
        ensures
            r.wf(),
            r@ == Seq::<EntryView>::empty(),
    {
        HostTable { entries: Vec::new() }
    }

    /// The number of tracked hosts.
    pub fn len(&self) -> (r: usize)
        ensures
            r == self@.len(),
    {
        self.entries.len()
    }

    /// Where an address is tracked.
    pub fn position(&self, addr: &str) -> (r: Option<usize>)
        requires
            self.wf(),
        ensures
            r is Some <==> tracks(self@, addr@),
            r matches Some(i) ==> i < self@.len() && i == place(self@, addr@) && is_at(
                self@,
                addr@,
                i as int,
            ),
    {
        let key = addr.to_owned();
        let mut i: usize = 0;
        while i < self.entries.len()
            invariant
                i <= self.entries@.len(),
                key@ == addr@,
                self.wf(),
                forall|j: int| 0 <= j < i ==> !is_at(self@, addr@, j),
            decreases self.entries.len() - i,
        {
            assert(self@[i as int] == self.entries@[i as int]@);
            if self.entries[i].addr == key {
                proof {
                    lemma_place(self@, addr@, i as int);
                }
                return Some(i);
            }
            i = i + 1;
        }
        None
    }

    /// The state of the host with an address.
    pub fn get(&self, addr: &str) -> (r: Option<&HostState>)
        requires
            self.wf(),
        ensures
            r is Some <==> lookup(self@, addr@) is Some,
            r matches Some(host) ==> lookup(self@, addr@) == Some(host@),
    {
        match self.position(addr) {
            Some(i) => {
                assert(self@[i as int] == self.entries@[i as int]@);
                Some(&self.entries[i].host)
            },
            None => None,
        }
    }
}

/// Filtering one element more.
pub proof fn lemma_filter_step<T>(s: Seq<T>, keep: spec_fn(T) -> bool, i: int)
    requires
        0 <= i < s.len(),
    ensures
        s.take(i + 1).filter(keep) == if keep(s[i]) {
            s.take(i).filter(keep).push(s[i])
        } else {
            s.take(i).filter(keep)
        },
{
    reveal(Seq::filter);
    assert(s.take(i + 1).drop_last() =~= s.take(i));
}

/// What is filtered out of a sequence comes from it, and where no two of the sequence share a
/// key, no two of what is kept do.
pub proof fn lemma_filter_keys<T, K>(s: Seq<T>, keep: spec_fn(T) -> bool, key: spec_fn(T) -> K)
    ensures
        s.filter(keep).len() <= s.len(),
        forall|t: T| #[trigger] s.filter(keep).contains(t) <==> s.contains(t) && keep(t),
        (forall|i: int, j: int|
            #![trigger s[i], s[j]]
            0 <= i < j < s.len() ==> key(s[i]) != key(s[j])) ==> (forall|i: int, j: int|
            #![trigger s.filter(keep)[i], s.filter(keep)[j]]
            0 <= i < j < s.filter(keep).len() ==> key(s.filter(keep)[i]) != key(
                s.filter(keep)[j],
            )),
    decreases s.len(),
{
    reveal(Seq::filter);
    let kept = s.filter(keep);
    if s.len() > 0 {
        let front = s.drop_last();
        let last = s.last();
        let rest = front.filter(keep);
        lemma_filter_keys(front, keep, key);
        assert(s =~= front.push(last));
        assert forall|t: T| #[trigger] kept.contains(t) <==> s.contains(t) && keep(t) by {
            if kept.contains(t) {
                let k = choose|k: int| 0 <= k < kept.len() && kept[k] == t;
                if k < rest.len() {
                    assert(rest[k] == t);
                    assert(rest.contains(t));
                    let i = choose|i: int| 0 <= i < front.len() && front[i] == t;
                    assert(s[i] == t);
                } else {
                    assert(s[s.len() - 1] == t);
                }
            }
            if s.contains(t) && keep(t) {
                let i = choose|i: int| 0 <= i < s.len() && s[i] == t;
                if i < front.len() {
                    assert(front[i] == t);
                    assert(rest.contains(t));
                    let k = choose|k: int| 0 <= k < rest.len() && rest[k] == t;
                    assert(kept[k] == t);
                } else {
                    assert(kept[rest.len() as int] == t);
                }
            }
        }
        if forall|i: int, j: int|
            #![trigger s[i], s[j]]
            0 <= i < j < s.len() ==> key(s[i]) != key(s[j]) {
            assert forall|i: int, j: int|
                #![trigger front[i], front[j]]
                0 <= i < j < front.len() implies key(front[i]) != key(front[j]) by {
                assert(front[i] == s[i] && front[j] == s[j]);
            }
            assert forall|i: int, j: int|
                #![trigger kept[i], kept[j]]
                0 <= i < j < kept.len() implies key(kept[i]) != key(kept[j]) by {
                if j < rest.len() {
                    assert(rest[i] == kept[i] && rest[j] == kept[j]);
                } else {
                    assert(rest[i] == kept[i]);
                    assert(rest.contains(rest[i]));
                    let k = choose|k: int| 0 <= k < front.len() && front[k] == rest[i];
                    assert(s[k] == kept[i] && s[s.len() - 1] == kept[j]);
                }
            }
        }
    }
}

/// A set of addresses, in the order in which they were put in.
#[derive(Debug)]
pub struct AddressSet {
    pub members: Vec<String>,
}

impl View for AddressSet {
    type V = Seq<Seq<char>>;

    open spec fn view(&self) -> Seq<Seq<char>> {
        self.members@.map_values(|member: String| member@)
    }
}

impl AddressSet {
    pub open spec fn wf(&self) -> bool {
        self@.no_duplicates()
    }

    /// The empty set.
    pub fn new() -> (r: AddressSet)
        ensures
            r.wf(),
            r@ == Seq::<Seq<char>>::empty(),
    {
        AddressSet { members: Vec::new() }
    }

    /// The number of addresses.
    pub fn len(&self) -> (r: usize)
        ensures
            r == self@.len(),
    {
        self.members.len()
    }

    pub fn contains(&self, addr: &str) -> (r: bool)
        ensures
            r == self@.contains(addr@),
    {
        let key = addr.to_owned();
        let mut i: usize = 0;
        while i < self.members.len()
            invariant
                i <= self.members@.len(),
                key@ == addr@,
                forall|j: int| 0 <= j < i ==> self@[j] != addr@,
            decreases self.members.len() - i,
        {
            assert(self@[i as int] == self.members@[i as int]@);
            if self.members[i] == key {
                return true;
            }
            i = i + 1;
        }
        false
    }

    /// Puts an address in that is not in the set.
    pub fn insert_new(&mut self, addr: String)
        requires
            old(self).wf(),
            !old(self)@.contains(addr@),
        ensures
            final(self).wf(),
            final(self)@ == old(self)@.push(addr@),
    {
        let ghost before = self@;
        self.members.push(addr);
        assert(self@ =~= before.push(addr@));
    }
}

} // verus!

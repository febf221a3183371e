//! What the machine offers (installed binaries, desktop-portal versions) and
//! whether a tool's requirements are met by it.

use crate::descriptor::Requires;
use crate::text::{push_str, str_eq, u64_to_string, dec_nat};
use vstd::prelude::*;

verus! {

// ---------------------------------------------------------------------------
// A set of names

/// A set of names (of installed binaries).
#[derive(Debug)]
pub struct NameSet {
    names: Vec<String>,
}

impl View for NameSet {
    type V = Set<Seq<char>>;

    closed spec fn view(&self) -> Set<Seq<char>> {
        Set::new(|n: Seq<char>| exists|i: int| 0 <= i < self.names@.len() && #[trigger] self.names@[i]@ == n)
    }
}

impl NameSet {
    /// An empty set.
    pub fn new() -> (s: Self)
        ensures
            s@ == Set::<Seq<char>>::empty(),
    {
        let s = NameSet { names: Vec::new() };
        assert(s@ =~= Set::<Seq<char>>::empty());
        s
    }

    /// Whether `name` is in the set.
    pub fn contains(&self, name: &str) -> (b: bool)
        ensures
            b == self@.contains(name@),
    {
        let mut i: usize = 0;
        while i < self.names.len()
            invariant
                i <= self.names@.len(),
                forall|q: int| 0 <= q < i ==> #[trigger] self.names@[q]@ != name@,
            decreases self.names.len() - i,
        {
            if str_eq(self.names[i].as_str(), name) {
                assert(self@.contains(self.names@[i as int]@));
                return true;
            }
            i += 1;
        }
        false
    }

    /// Adds `name`; `true` when it was not in the set before.
    pub fn insert(&mut self, name: String) -> (added: bool)
        ensures
            final(self)@ == old(self)@.insert(name@),
            added == !old(self)@.contains(name@),
    {
        if self.contains(name.as_str()) {
            assert(old(self)@.insert(name@) =~= old(self)@);
            false
        } else {
            let ghost n = name@;
            self.names.push(name);
            assert forall|x: Seq<char>| old(self)@.insert(n).contains(x) implies #[trigger] self@.contains(x) by {
                if x == n {
                    assert(self.names@[self.names@.len() - 1]@ == n);
                } else {
                    assert(old(self)@.contains(x));
                    let i = choose|i: int| 0 <= i < old(self).names@.len() && #[trigger] old(self).names@[i]@ == x;
                    assert(self.names@[i]@ == x);
                }
            }
            assert forall|x: Seq<char>| #[trigger] self@.contains(x) implies old(self)@.insert(n).contains(x) by {
                let i = choose|i: int| 0 <= i < self.names@.len() && #[trigger] self.names@[i]@ == x;
                if i < old(self).names@.len() {
                    assert(old(self).names@[i]@ == x);
                }
            }
            assert(self@ =~= old(self)@.insert(n));
            true
        }
    }
}

impl Default for NameSet {
    fn default() -> (s: Self)
        ensures
            s@ == Set::<Seq<char>>::empty(),
    {
        NameSet::new()
    }
}

impl Clone for NameSet {
    fn clone(&self) -> (r: Self)
        ensures
            r@ == self@,
    {
        let mut names: Vec<String> = Vec::new();
        let mut i: usize = 0;
        while i < self.names.len()
            invariant
                i <= self.names@.len(),
                names@.len() == i,
                forall|q: int| 0 <= q < i ==> #[trigger] names@[q]@ == self.names@[q]@,
            decreases self.names.len() - i,
        {
            names.push(self.names[i].clone());
            i += 1;
        }
        let r = NameSet { names };
        assert forall|x: Seq<char>| #[trigger] r@.contains(x) implies self@.contains(x) by {
            let i = choose|i: int| 0 <= i < r.names@.len() && #[trigger] r.names@[i]@ == x;
            assert(self.names@[i]@ == x);
        }
        assert forall|x: Seq<char>| #[trigger] self@.contains(x) implies r@.contains(x) by {
            let i = choose|i: int| 0 <= i < self.names@.len() && #[trigger] self.names@[i]@ == x;
            assert(r.names@[i]@ == x);
        }
        assert(r@ =~= self@);
        r
    }
}

// ---------------------------------------------------------------------------
// Versions by name

/// The map a list of (name, version) pairs stands for: a later pair
/// overrides an earlier one with the same name.
pub open spec fn pairs_map(s: Seq<(Seq<char>, u32)>) -> Map<Seq<char>, u32>
    decreases s.len(),
{
    if s.len() == 0 {
        Map::empty()
    } else {
        pairs_map(s.drop_last()).insert(s.last().0, s.last().1)
    }
}

pub open spec fn unique_names(s: Seq<(Seq<char>, u32)>) -> bool {
    forall|i: int, j: int| 0 <= i < j < s.len() ==> #[trigger] s[i].0 != #[trigger] s[j].0
}

proof fn lemma_pairs_map_dom(s: Seq<(Seq<char>, u32)>, k: Seq<char>)
    ensures
        pairs_map(s).contains_key(k) <==> exists|i: int| 0 <= i < s.len() && #[trigger] s[i].0 == k,
    decreases s.len(),
{
    if s.len() > 0 {
        lemma_pairs_map_dom(s.drop_last(), k);
        if exists|i: int| 0 <= i < s.len() && #[trigger] s[i].0 == k {
            let i = choose|i: int| 0 <= i < s.len() && #[trigger] s[i].0 == k;
            if i < s.len() - 1 {
                assert(s.drop_last()[i].0 == k);
            }
        }
        if exists|i: int| 0 <= i < s.drop_last().len() && #[trigger] s.drop_last()[i].0 == k {
            let i = choose|i: int| 0 <= i < s.drop_last().len() && #[trigger] s.drop_last()[i].0 == k;
            assert(s[i].0 == k);
        }
    }
}

proof fn lemma_pairs_map_at(s: Seq<(Seq<char>, u32)>, i: int)
    requires
        unique_names(s),
        0 <= i < s.len(),
    ensures
        pairs_map(s).contains_key(s[i].0),
        pairs_map(s)[s[i].0] == s[i].1,
    decreases s.len(),
{
    if i < s.len() - 1 {
        assert(s.drop_last()[i] == s[i]);
        lemma_pairs_map_at(s.drop_last(), i);
        assert(s[i].0 != s.last().0);
    }
}

proof fn lemma_pairs_map_update(s: Seq<(Seq<char>, u32)>, j: int, v: u32)
    requires
        unique_names(s),
        0 <= j < s.len(),
    ensures
        pairs_map(s.update(j, (s[j].0, v))) == pairs_map(s).insert(s[j].0, v),
    decreases s.len(),
{
    let t = s.update(j, (s[j].0, v));
    if j == s.len() - 1 {
        assert(t.drop_last() =~= s.drop_last());
        assert(pairs_map(t) =~= pairs_map(s).insert(s[j].0, v));
    } else {
        assert(t.drop_last() =~= s.drop_last().update(j, (s[j].0, v)));
        assert(s.drop_last()[j] == s[j]);
        lemma_pairs_map_update(s.drop_last(), j, v);
        assert(s[j].0 != s.last().0);
        assert(pairs_map(t) =~= pairs_map(s).insert(s[j].0, v));
    }
}

/// Desktop-portal versions by interface name.
#[derive(Debug)]
pub struct VersionMap {
    entries: Vec<(String, u32)>,
}

pub open spec fn entry_views(v: Seq<(String, u32)>) -> Seq<(Seq<char>, u32)> {
    Seq::new(v.len(), |i: int| (v[i].0@, v[i].1))
}

impl View for VersionMap {
    type V = Map<Seq<char>, u32>;

    closed spec fn view(&self) -> Map<Seq<char>, u32> {
        pairs_map(entry_views(self.entries@))
    }
}

impl VersionMap {
    #[verifier::type_invariant]
    closed spec fn well_formed(self) -> bool {
        unique_names(entry_views(self.entries@))
    }

    /// An empty map.
    pub fn new() -> (m: Self)
        ensures
            m@ == Map::<Seq<char>, u32>::empty(),
    {
        let m = VersionMap { entries: Vec::new() };
        assert(entry_views(m.entries@) =~= Seq::<(Seq<char>, u32)>::empty());
        m
    }

    fn find(&self, name: &str) -> (r: Option<usize>)
        ensures
            r matches Some(j) ==> j < self.entries@.len() && self.entries@[j as int].0@ == name@,
            r is None ==> forall|i: int| 0 <= i < self.entries@.len() ==> #[trigger] self.entries@[i].0@ != name@,
    {
        let mut i: usize = 0;
        while i < self.entries.len()
            invariant
                i <= self.entries@.len(),
                forall|q: int| 0 <= q < i ==> #[trigger] self.entries@[q].0@ != name@,
            decreases self.entries.len() - i,
        {
            if str_eq(self.entries[i].0.as_str(), name) {
                return Some(i);
            }
            i += 1;
        }
        None
    }

    /// The version recorded for `name`.
    pub fn get(&self, name: &str) -> (r: Option<u32>)
        ensures
            r matches Some(v) ==> self@.contains_key(name@) && self@[name@] == v,
            r is None ==> !self@.contains_key(name@),
    {
        proof {
            use_type_invariant(self);
        }
        let ghost s = entry_views(self.entries@);
        match self.find(name) {
            Some(j) => {
                proof {
                    lemma_pairs_map_at(s, j as int);
                }
                Some(self.entries[j].1)
            },
            None => {
                proof {
                    lemma_pairs_map_dom(s, name@);
                    assert forall|i: int| 0 <= i < s.len() implies #[trigger] s[i].0 != name@ by {
                        assert(s[i].0 == self.entries@[i].0@);
                    }
                }
                None
            },
        }
    }

    /// Records `version` for `name`, returning the version it replaces.
    pub fn insert(&mut self, name: String, version: u32) -> (prev: Option<u32>)
        ensures
            final(self)@ == old(self)@.insert(name@, version),
            prev matches Some(v) ==> old(self)@.contains_key(name@) && old(self)@[name@] == v,
            prev is None ==> !old(self)@.contains_key(name@),
    {
        proof {
            use_type_invariant(&*self);
        }
        let prev = self.get(name.as_str());
        let ghost s = entry_views(self.entries@);
        let ghost n = name@;
        match self.find(name.as_str()) {
            Some(j) => {
                let mut entries: Vec<(String, u32)> = Vec::new();
                std::mem::swap(&mut entries, &mut self.entries);
                let ghost before = entries@;
                entries.set(j, (name, version));
                proof {
                    assert(entry_views(entries@) =~= s.update(j as int, (s[j as int].0, version)));
                    lemma_pairs_map_update(s, j as int, version);
                    assert forall|a: int, b: int| 0 <= a < b < entry_views(entries@).len() implies #[trigger] entry_views(entries@)[a].0 != #[trigger] entry_views(entries@)[b].0 by {
                        assert(entry_views(entries@)[a].0 == s[a].0);
                        assert(entry_views(entries@)[b].0 == s[b].0);
                    }
                }
                self.entries = entries;
            },
            None => {
                let mut entries: Vec<(String, u32)> = Vec::new();
                std::mem::swap(&mut entries, &mut self.entries);
                entries.push((name, version));
                proof {
                    assert(entry_views(entries@) =~= s.push((n, version)));
                    assert(entry_views(entries@).drop_last() =~= s);
                    assert forall|a: int, b: int| 0 <= a < b < entry_views(entries@).len() implies #[trigger] entry_views(entries@)[a].0 != #[trigger] entry_views(entries@)[b].0 by {
                        if b == s.len() {
                            assert(s[a].0 != n);
                        } else {
                            assert(entry_views(entries@)[a] == s[a]);
                            assert(entry_views(entries@)[b] == s[b]);
                        }
                    }
                }
                self.entries = entries;
            },
        }
        prev
    }

    /// Every (name, version) pair, each name once.
    pub fn entries(&self) -> (r: Vec<(String, u32)>)
        ensures
            pairs_map(entry_views(r@)) == self@,
            unique_names(entry_views(r@)),
    {
        proof {
            use_type_invariant(self);
        }
        let mut r: Vec<(String, u32)> = Vec::new();
        let mut i: usize = 0;
        while i < self.entries.len()
            invariant
                i <= self.entries@.len(),
                r@.len() == i,
                forall|q: int| 0 <= q < i ==> (#[trigger] r@[q]).0@ == self.entries@[q].0@ && r@[q].1 == self.entries@[q].1,
            decreases self.entries.len() - i,
        {
            r.push((self.entries[i].0.clone(), self.entries[i].1));
            i += 1;
        }
        assert(entry_views(r@) =~= entry_views(self.entries@));
        r
    }
}

impl Default for VersionMap {
    fn default() -> (m: Self)
        ensures
            m@ == Map::<Seq<char>, u32>::empty(),
    {
        VersionMap::new()
    }
}

impl Clone for VersionMap {
    fn clone(&self) -> (r: Self)
        ensures
            r@ == self@,
    {
        proof {
            use_type_invariant(self);
        }
        let entries = self.entries();
        VersionMap { entries }
    }
}

// ---------------------------------------------------------------------------
// Requirements

/// What the machine offers: binaries found on the search path and the
/// versions of the desktop portals.
#[derive(Debug)]
pub struct AvailabilityView {
    pub binaries: NameSet,
    pub portals: VersionMap,
}

impl Default for AvailabilityView {
    fn default() -> (v: Self)
        ensures
            v.binaries@ == Set::<Seq<char>>::empty(),
            v.portals@ == Map::<Seq<char>, u32>::empty(),
    {
        AvailabilityView { binaries: NameSet::new(), portals: VersionMap::new() }
    }
}

impl Clone for AvailabilityView {
    fn clone(&self) -> (r: Self)
        ensures
            r.binaries@ == self.binaries@,
            r.portals@ == self.portals@,
    {
        AvailabilityView { binaries: self.binaries.clone(), portals: self.portals.clone() }
    }
}

/// Why an unmet requirement is unmet, and what would fix it.
pub open spec fn binary_unmet(b: Seq<char>) -> (Seq<char>, Seq<char>) {
    (b + " is not installed"@, "install "@ + b + " or add it to your PATH"@)
}

pub open spec fn portal_unmet(portals: Map<Seq<char>, u32>, iface: Seq<char>, min_ver: u32) -> Option<
    (Seq<char>, Seq<char>),
> {
    if portals.contains_key(iface) {
        if portals[iface] >= min_ver {
            None
        } else {
            Some(
                (
                    "the "@ + iface + " desktop portal is version "@ + dec_nat(portals[iface] as nat)
                        + ", but this tool needs version "@ + dec_nat(min_ver as nat),
                    "update your desktop environment to one that provides "@ + iface + " portal v"@
                        + dec_nat(min_ver as nat) + " or newer"@,
                ),
            )
        }
    } else {
        Some(
            (
                "the "@ + iface + " desktop portal is not available"@,
                "this tool needs a desktop environment with XDG Desktop Portal support"@,
            ),
        )
    }
}

/// The first unmet requirement's reason and fix, `None` when every
/// requirement is met; the entries of `All` are checked in order.
pub open spec fn unmet(bins: Set<Seq<char>>, portals: Map<Seq<char>, u32>, r: Requires) -> Option<
    (Seq<char>, Seq<char>),
>
    decreases r,
{
    match r {
        Requires::Nothing => None,
        Requires::Binary(b) => if bins.contains(b@) {
            None
        } else {
            Some(binary_unmet(b@))
        },
        Requires::Portal { iface, min_ver } => portal_unmet(portals, iface@, min_ver),
        Requires::All(all) => unmet_list(bins, portals, all@),
    }
}

/// The first unmet requirement of a list.
pub open spec fn unmet_list(bins: Set<Seq<char>>, portals: Map<Seq<char>, u32>, list: Seq<Requires>) -> Option<
    (Seq<char>, Seq<char>),
>
    decreases list,
{
    if list.len() == 0 {
        None
    } else {
        match unmet(bins, portals, list[0]) {
            Some(x) => Some(x),
            None => unmet_list(bins, portals, list.drop_first()),
        }
    }
}

/// Whether `view` meets `req`.
pub open spec fn requires_met(view: AvailabilityView, req: Requires) -> bool {
    unmet(view.binaries@, view.portals@, req) is None
}

fn portal_check(view: &AvailabilityView, iface: &String, min_ver: u32) -> (r: Option<(String, String)>)
    ensures
        r matches Some(x) ==> portal_unmet(view.portals@, iface@, min_ver) == Some((x.0@, x.1@)),
        r is None ==> portal_unmet(view.portals@, iface@, min_ver) is None,
{
    match view.portals.get(iface.as_str()) {
        Some(version) => {
            if version >= min_ver {
                None
            } else {
                let mut reason = String::new();
                push_str(&mut reason, "the ");
                push_str(&mut reason, iface.as_str());
                push_str(&mut reason, " desktop portal is version ");
                let v = u64_to_string(version as u64);
                push_str(&mut reason, v.as_str());
                push_str(&mut reason, ", but this tool needs version ");
                let m = u64_to_string(min_ver as u64);
                push_str(&mut reason, m.as_str());
                let mut fix = String::new();
                push_str(&mut fix, "update your desktop environment to one that provides ");
                push_str(&mut fix, iface.as_str());
                push_str(&mut fix, " portal v");
                push_str(&mut fix, m.as_str());
                push_str(&mut fix, " or newer");
                Some((reason, fix))
            }
        },
        None => {
            let mut reason = String::new();
            push_str(&mut reason, "the ");
            push_str(&mut reason, iface.as_str());
            push_str(&mut reason, " desktop portal is not available");
            Some(
                (
                    reason,
                    "this tool needs a desktop environment with XDG Desktop Portal support".to_owned(),
                ),
            )
        },
    }
}

/// The first unmet requirement of `req` against `view`, as a reason
/// and a fix; `None` when `view` meets it.
pub fn first_unmet(view: &AvailabilityView, req: &Requires) -> (r: Option<(String, String)>)
    ensures
        r matches Some(x) ==> unmet(view.binaries@, view.portals@, *req) == Some((x.0@, x.1@)),
        r is None ==> unmet(view.binaries@, view.portals@, *req) is None,
    decreases req,
{
    match req {
        Requires::Nothing => None,
        Requires::Binary(b) => {
            if view.binaries.contains(b.as_str()) {
                None
            } else {
                let mut reason = String::new();
                push_str(&mut reason, b.as_str());
                push_str(&mut reason, " is not installed");
                let mut fix = String::new();
                push_str(&mut fix, "install ");
                push_str(&mut fix, b.as_str());
                push_str(&mut fix, " or add it to your PATH");
                Some((reason, fix))
            }
        },
        Requires::Portal { iface, min_ver } => portal_check(view, iface, *min_ver),
        Requires::All(all) => {
            let mut i: usize = 0;
            assert(all@.skip(0) =~= all@);
            while i < all.len()
                invariant
                    i <= all@.len(),
                    *req == Requires::All(*all),
                    unmet(view.binaries@, view.portals@, *req) == unmet_list(
                        view.binaries@,
                        view.portals@,
                        all@.skip(i as int),
                    ),
                decreases all.len() - i,
            {
                proof {
                    assert(decreases_to!(*req => (*req)->All_0));
                    assert(decreases_to!((*req)->All_0 => ((*req)->All_0)@));
                    assert(decreases_to!(((*req)->All_0)@ => ((*req)->All_0)@[i as int]));
                }
                let inner = first_unmet(view, &all[i]);
                assert(all@.skip(i as int)[0] == all@[i as int]);
                assert(all@.skip(i as int).drop_first() =~= all@.skip(i + 1));
                if inner.is_some() {
                    return inner;
                }
                i += 1;
            }
            None
        },
    }
}

/// Whether `view` meets `req`, and when it does not, why: the reason
/// of the first unmet requirement (the entries of `All` in order).
pub fn is_available(view: &AvailabilityView, req: &Requires) -> (r: (bool, Option<String>))
    ensures
        r.0 == (unmet(view.binaries@, view.portals@, *req) is None),
        r.1 matches Some(s) ==> unmet(view.binaries@, view.portals@, *req) matches Some(x) && x.0 == s@,
        r.1 is None ==> unmet(view.binaries@, view.portals@, *req) is None,
{
    match first_unmet(view, req) {
        Some((reason, _)) => (false, Some(reason)),
        None => (true, None),
    }
}

/// Every binary named anywhere in a requirement, in order, `All` entries
/// included.
pub open spec fn binaries_of(r: Requires) -> Seq<Seq<char>>
    decreases r,
{
    match r {
        Requires::Binary(b) => seq![b@],
        Requires::All(all) => binaries_of_list(all@),
        _ => seq![],
    }
}

pub open spec fn binaries_of_list(list: Seq<Requires>) -> Seq<Seq<char>>
    decreases list,
{
    if list.len() == 0 {
        seq![]
    } else {
        binaries_of(list[0]) + binaries_of_list(list.drop_first())
    }
}

/// Every binary named anywhere inside `req`, in order.
pub fn binary_requirements(req: &Requires) -> (r: Vec<&String>)
    ensures
        r@.map_values(|s: &String| s@) == binaries_of(*req),
    decreases req,
{
    match req {
        Requires::Binary(b) => {
            let mut r: Vec<&String> = Vec::new();
            r.push(b);
            assert(r@.map_values(|s: &String| s@) =~= seq![b@]);
            r
        },
        Requires::All(all) => {
            let mut r: Vec<&String> = Vec::new();
            let mut i: usize = 0;
            assert(all@.skip(0) =~= all@);
            assert(r@.map_values(|s: &String| s@) =~= Seq::<Seq<char>>::empty());
            while i < all.len()
                invariant
                    i <= all@.len(),
                    *req == Requires::All(*all),
                    r@.map_values(|s: &String| s@) + binaries_of_list(all@.skip(i as int))
                        == binaries_of(*req),
                decreases all.len() - i,
            {
                proof {
                    assert(decreases_to!(*req => (*req)->All_0));
                    assert(decreases_to!((*req)->All_0 => ((*req)->All_0)@));
                    assert(decreases_to!(((*req)->All_0)@ => ((*req)->All_0)@[i as int]));
                }
                let inner = binary_requirements(&all[i]);
                let ghost before = r@.map_values(|s: &String| s@);
                let mut j: usize = 0;
                while j < inner.len()
                    invariant
                        j <= inner@.len(),
                        r@.map_values(|s: &String| s@) == before + inner@.map_values(|s: &String| s@).take(j as int),
                    decreases inner.len() - j,
                {
                    let ghost r0 = r@;
                    r.push(inner[j]);
                    assert(r@ == r0.push(inner@[j as int]));
                    assert(r@.map_values(|s: &String| s@) =~= r0.map_values(|s: &String| s@).push(inner@[j as int]@));
                    assert(inner@.map_values(|s: &String| s@).take(j + 1) =~= inner@.map_values(|s: &String| s@).take(j as int).push(inner@[j as int]@));
                    assert(r@.map_values(|s: &String| s@) =~= before + inner@.map_values(|s: &String| s@).take(j + 1));
                    j += 1;
                }
                assert(inner@.map_values(|s: &String| s@).take(j as int) =~= inner@.map_values(|s: &String| s@));
                assert(all@.skip(i as int)[0] == all@[i as int]);
                assert(all@.skip(i as int).drop_first() =~= all@.skip(i + 1));
                assert(binaries_of_list(all@.skip(i as int)) == binaries_of(all@[i as int]) + binaries_of_list(all@.skip(i + 1)));
                assert(r@.map_values(|s: &String| s@) + binaries_of_list(all@.skip(i + 1)) =~= before + (binaries_of(all@[i as int]) + binaries_of_list(all@.skip(i + 1))));
                i += 1;
            }
            assert(all@.skip(i as int) =~= Seq::<Requires>::empty());
            assert(r@.map_values(|s: &String| s@) + Seq::<Seq<char>>::empty() =~= r@.map_values(|s: &String| s@));
            r
        },
        _ => {
            let r: Vec<&String> = Vec::new();
            assert(r@.map_values(|s: &String| s@) =~= Seq::<Seq<char>>::empty());
            r
        },
    }
}

/// `All` is met exactly when every one of its entries is met.
pub proof fn law_all_met_iff_each_met(
    bins: Set<Seq<char>>,
    portals: Map<Seq<char>, u32>,
    list: Seq<Requires>,
)
    ensures
        unmet_list(bins, portals, list) is None <==> forall|i: int|
            0 <= i < list.len() ==> #[trigger] unmet(bins, portals, list[i]) is None,
    decreases list.len(),
{
    if list.len() > 0 {
        law_all_met_iff_each_met(bins, portals, list.drop_first());
        assert forall|i: int| 0 < i < list.len() implies list[i] == list.drop_first()[i - 1] by {}
        if unmet(bins, portals, list[0]) is None && forall|i: int|
            0 <= i < list.drop_first().len() ==> #[trigger] unmet(bins, portals, list.drop_first()[i])
                is None {
            assert forall|i: int| 0 <= i < list.len() implies #[trigger] unmet(bins, portals, list[i])
                is None by {
                if i > 0 {
                    assert(unmet(bins, portals, list.drop_first()[i - 1]) is None);
                }
            }
        }
        if forall|i: int| 0 <= i < list.len() ==> #[trigger] unmet(bins, portals, list[i]) is None {
            assert(unmet(bins, portals, list[0]) is None);
            assert forall|i: int| 0 <= i < list.drop_first().len() implies #[trigger] unmet(
                bins,
                portals,
                list.drop_first()[i],
            ) is None by {
                assert(unmet(bins, portals, list[i + 1]) is None);
            }
        }
    }
}

/// What meeting a requirement means: nothing is always met, a binary when
/// the view found it, a portal when the view has it at the needed version
/// or newer, and a list when every entry is met.
pub proof fn law_requirement_met_cases(view: AvailabilityView, req: Requires)
    ensures
        req is Nothing ==> requires_met(view, req),
        req matches Requires::Binary(b) ==> (requires_met(view, req) <==> view.binaries@.contains(b@)),
        req matches Requires::Portal { iface, min_ver } ==> (requires_met(view, req) <==> (
        view.portals@.contains_key(iface@) && view.portals@[iface@] >= min_ver)),
        req matches Requires::All(all) ==> (requires_met(view, req) <==> forall|i: int|
            0 <= i < all@.len() ==> #[trigger] requires_met(view, all@[i])),
{
    if let Requires::All(all) = req {
        law_all_met_iff_each_met(view.binaries@, view.portals@, all@);
        if forall|i: int| 0 <= i < all@.len() ==> #[trigger] requires_met(view, all@[i]) {
            assert forall|i: int| 0 <= i < all@.len() implies #[trigger] unmet(
                view.binaries@,
                view.portals@,
                all@[i],
            ) is None by {
                assert(requires_met(view, all@[i]));
            }
        }
        if forall|i: int| 0 <= i < all@.len() ==> #[trigger] unmet(view.binaries@, view.portals@, all@[i])
            is None {
            assert forall|i: int| 0 <= i < all@.len() implies #[trigger] requires_met(view, all@[i]) by {
                assert(unmet(view.binaries@, view.portals@, all@[i]) is None);
            }
        }
    }
}

/// An unmet `All` reports its first unmet entry's reason and fix.
pub proof fn law_all_reports_first_unmet(
    bins: Set<Seq<char>>,
    portals: Map<Seq<char>, u32>,
    list: Seq<Requires>,
)
    ensures
        unmet_list(bins, portals, list) matches Some(x) ==> exists|i: int|
            0 <= i < list.len() && unmet(bins, portals, list[i]) == Some(x) && forall|j: int|
                0 <= j < i ==> #[trigger] unmet(bins, portals, list[j]) is None,
    decreases list.len(),
{
    if list.len() > 0 {
        law_all_reports_first_unmet(bins, portals, list.drop_first());
        if let Some(x) = unmet_list(bins, portals, list) {
            if unmet(bins, portals, list[0]) is None {
                let i = choose|i: int|
                    0 <= i < list.drop_first().len() && unmet(bins, portals, list.drop_first()[i])
                        == Some(x) && forall|j: int|
                        0 <= j < i ==> #[trigger] unmet(bins, portals, list.drop_first()[j]) is None;
                assert(list[i + 1] == list.drop_first()[i]);
                assert forall|j: int| 0 <= j < i + 1 implies #[trigger] unmet(bins, portals, list[j])
                    is None by {
                    if j > 0 {
                        assert(list[j] == list.drop_first()[j - 1]);
                    }
                }
            } else {
                assert(unmet(bins, portals, list[0]) == Some(x));
            }
        }
    }
}

} // verus!

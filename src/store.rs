//! The key-state store: for each held physical key the logical key it
//! produces, and for each logical key the physical keys that produce it, in
//! the order in which they started to.

use std::collections::HashMap;

use linked_hash_map::LinkedHashMap;
use vstd::prelude::*;

use crate::event::{KbctKeyStatus, Keycode};

verus! {

broadcast use vstd::std_specs::hash::group_hash_axioms;

#[verifier::external_type_specification]
#[verifier::external_body]
#[verifier::reject_recursive_types(K)]
#[verifier::reject_recursive_types(V)]
#[verifier::reject_recursive_types(S)]
pub struct ExLinkedHashMap<K, V, S>(LinkedHashMap<K, V, S>);

/// Physical keys to their states.
pub type KeyStateMap = LinkedHashMap<Keycode, KbctKeyState>;

/// An insertion-ordered set of physical keys.
pub type KeySequenceSet = LinkedHashMap<Keycode, bool>;

/// The state of one held physical key.
#[derive(Debug, Copy, Clone, PartialEq, Eq, Structural)]
pub struct KbctKeyState {
    /// The value of the logical clock when the state last changed.
    pub time: u64,
    /// The logical key emitted on behalf of the physical key.
    pub mapped_code: Keycode,
    pub status: KbctKeyStatus,
}

/// What a map from physical keys to key states holds, by key.
pub uninterp spec fn key_states(m: KeyStateMap) -> Map<Keycode, KbctKeyState>;

/// The keys of an insertion-ordered set, oldest first.
pub uninterp spec fn source_order(m: KeySequenceSet) -> Seq<Keycode>;

/// Relies on LinkedHashMap::new: the map starts empty.
#[verifier::external_body]
fn states_new() -> (r: KeyStateMap)
    ensures
        key_states(r).dom() == Set::<Keycode>::empty(),
{
    LinkedHashMap::new()
}

/// Relies on LinkedHashMap::get: the value stored under the key, if any.
#[verifier::external_body]
fn states_get(m: &KeyStateMap, k: Keycode) -> (r: Option<KbctKeyState>)
    ensures
        match r {
            Some(v) => key_states(*m).contains_key(k) && key_states(*m)[k] == v,
            None => !key_states(*m).contains_key(k),
        },
{
    m.get(&k).copied()
}

/// Relies on LinkedHashMap::insert: the key maps to the value afterwards, the
/// other keys keep theirs.
#[verifier::external_body]
fn states_insert(m: &mut KeyStateMap, k: Keycode, v: KbctKeyState)
    ensures
        key_states(*final(m)) == key_states(*old(m)).insert(k, v),
{
    m.insert(k, v);
}

/// Relies on LinkedHashMap::remove: the key is gone afterwards, the other keys
/// keep their values.
#[verifier::external_body]
fn states_remove(m: &mut KeyStateMap, k: Keycode)
    ensures
        key_states(*final(m)) == key_states(*old(m)).remove(k),
{
    m.remove(&k);
}

/// Relies on LinkedHashMap::len: the number of keys.
#[verifier::external_body]
fn states_len(m: &KeyStateMap) -> (r: usize)
    ensures
        r == key_states(*m).len(),
{
    m.len()
}

/// Relies on LinkedHashMap::new: the set starts empty.
#[verifier::external_body]
fn order_new() -> (r: KeySequenceSet)
    ensures
        source_order(r) == Seq::<Keycode>::empty(),
{
    LinkedHashMap::new()
}

/// Relies on LinkedHashMap::contains_key.
#[verifier::external_body]
fn order_contains(m: &KeySequenceSet, k: Keycode) -> (r: bool)
    ensures
        r == source_order(*m).contains(k),
{
    m.contains_key(&k)
}

/// Relies on LinkedHashMap::insert: a key that is not there yet goes last.
#[verifier::external_body]
fn order_insert(m: &mut KeySequenceSet, k: Keycode)
    requires
        !source_order(*old(m)).contains(k),
    ensures
        source_order(*final(m)) == source_order(*old(m)).push(k),
{
    m.insert(k, true);
}

/// Relies on LinkedHashMap::remove: the key leaves, the others keep their order.
#[verifier::external_body]
fn order_remove(m: &mut KeySequenceSet, k: Keycode)
    ensures
        source_order(*final(m)) == without(source_order(*old(m)), k),
{
    m.remove(&k);
}

/// Relies on LinkedHashMap::back: the key inserted last.
#[verifier::external_body]
fn order_back(m: &KeySequenceSet) -> (r: Option<Keycode>)
    ensures
        r == (if source_order(*m).len() == 0 {
            None
        } else {
            Some(source_order(*m).last())
        }),
{
    m.back().map(|(k, _)| *k)
}

/// Relies on LinkedHashMap::len: the number of keys.
#[verifier::external_body]
fn order_len(m: &KeySequenceSet) -> (r: usize)
    ensures
        r == source_order(*m).len(),
{
    m.len()
}


/// The ordered set `s` without `k`.
pub open spec fn without(s: Seq<Keycode>, k: Keycode) -> Seq<Keycode> {
    s.filter(|x: Keycode| x != k)
}

/// Removing `k` from an ordered set leaves the other keys, repeats none, and
/// shortens a set that held `k` by one.
pub(crate) proof fn lemma_without(s: Seq<Keycode>, k: Keycode)
    ensures
        forall|x: Keycode| #[trigger] without(s, k).contains(x) <==> s.contains(x) && x != k,
        s.no_duplicates() ==> without(s, k).no_duplicates(),
        s.no_duplicates() && s.contains(k) ==> without(s, k).len() + 1 == s.len(),
        !s.contains(k) ==> without(s, k) == s,
    decreases s.len(),
{
    reveal(Seq::filter);
    if s.len() == 0 {
        assert(without(s, k) =~= s);
    } else {
        let d = s.drop_last();
        let l = s.last();
        lemma_without(d, k);
        assert(s =~= d.push(l));
        assert forall|x: Keycode| s.contains(x) <==> d.contains(x) || x == l by {
            if s.contains(x) {
                let i = choose|i: int| 0 <= i < s.len() && s[i] == x;
                if i < s.len() - 1 {
                    assert(d[i] == x);
                }
            }
            if d.contains(x) {
                let i = choose|i: int| 0 <= i < d.len() && d[i] == x;
                assert(s[i] == x);
            }
            if x == l {
                assert(s[s.len() - 1] == x);
            }
        }
        let f = without(d, k);
        if s.no_duplicates() {
            assert(d.no_duplicates());
            assert(!d.contains(l)) by {
                if d.contains(l) {
                    let i = choose|i: int| 0 <= i < d.len() && d[i] == l;
                    assert(s[i] == s[s.len() - 1]);
                }
            }
        }
        if l != k {
            assert(without(s, k) == f.push(l));
            assert forall|x: Keycode| f.push(l).contains(x) <==> f.contains(x) || x == l by {
                if f.push(l).contains(x) {
                    let i = choose|i: int| 0 <= i < f.len() + 1 && f.push(l)[i] == x;
                    if i < f.len() {
                        assert(f[i] == x);
                    }
                }
                if f.contains(x) {
                    let i = choose|i: int| 0 <= i < f.len() && f[i] == x;
                    assert(f.push(l)[i] == x);
                }
                if x == l {
                    assert(f.push(l)[f.len() as int] == x);
                }
            }
            if s.no_duplicates() {
                assert(!f.contains(l));
                assert forall|i: int, j: int|
                    0 <= i < f.len() + 1 && 0 <= j < f.len() + 1 && i != j implies f.push(l)[i]
                    != f.push(l)[j] by {
                    if i < f.len() && j < f.len() {
                    } else if i < f.len() {
                        assert(f.contains(f[i]));
                    } else {
                        assert(f.contains(f[j]));
                    }
                }
            }
        } else {
            assert(without(s, k) == f);
        }
        assert forall|x: Keycode| #[trigger] without(s, k).contains(x) <==> s.contains(x) && x != k by {
            assert(f.contains(x) <==> d.contains(x) && x != k);
        }
    }
}

/// The mathematical content of a key-state store.
pub ghost struct StoreModel {
    /// Forward store: held physical key to its state.
    pub fwd: Map<Keycode, KbctKeyState>,
    /// Reverse store: logical key to the physical keys producing it, oldest first.
    pub rev: Map<Keycode, Seq<Keycode>>,
    /// The logical clock.
    pub clock: int,
}

impl StoreModel {
    /// The store's invariants: both stores describe one relation, no set in the
    /// reverse store is empty or repeats a key, no held key is released, and
    /// the times are distinct and behind the clock.
    pub open spec fn wf(self) -> bool {
        &&& self.fwd.dom().finite()
        &&& 0 <= self.clock <= u64::MAX
        &&& forall|p: Keycode| #[trigger]
            self.fwd.contains_key(p) ==> {
                &&& self.rev.contains_key(self.fwd[p].mapped_code)
                &&& self.rev[self.fwd[p].mapped_code].contains(p)
                &&& self.fwd[p].status != KbctKeyStatus::Released
                &&& self.fwd[p].time < self.clock
            }
        &&& forall|p: Keycode, q: Keycode|
            self.fwd.contains_key(p) && self.fwd.contains_key(q) && p != q ==> #[trigger] self.fwd[p].time
                != #[trigger] self.fwd[q].time
        &&& forall|l: Keycode| #[trigger]
            self.rev.contains_key(l) ==> self.rev[l].len() > 0 && self.rev[l].no_duplicates()
        &&& forall|l: Keycode, i: int|
            self.rev.contains_key(l) && 0 <= i < self.rev[l].len() ==> self.fwd.contains_key(
                #[trigger] self.rev[l][i],
            ) && self.fwd[self.rev[l][i]].mapped_code == l
    }

    /// The store after `phys` starts or goes on producing `log` with `status`.
    pub open spec fn record(self, phys: Keycode, log: Keycode, status: KbctKeyStatus) -> StoreModel {
        StoreModel {
            fwd: self.fwd.insert(
                phys,
                KbctKeyState { time: self.clock as u64, mapped_code: log, status },
            ),
            rev: self.rev.insert(
                log,
                if !self.rev.contains_key(log) {
                    seq![phys]
                } else if self.rev[log].contains(phys) {
                    self.rev[log]
                } else {
                    self.rev[log].push(phys)
                },
            ),
            clock: self.clock + 1,
        }
    }

    /// The store after the held key `phys` is released.
    pub open spec fn release(self, phys: Keycode) -> StoreModel {
        let log = self.fwd[phys].mapped_code;
        let rest = without(self.rev[log], phys);
        StoreModel {
            fwd: self.fwd.remove(phys),
            rev: if self.rev.contains_key(log) && rest.len() > 0 {
                self.rev.insert(log, rest)
            } else {
                self.rev.remove(log)
            },
            clock: self.clock + 1,
        }
    }

    /// The physical key that most recently started producing `log`.
    pub open spec fn most_recent_source(self, log: Keycode) -> Option<Keycode> {
        if self.rev.contains_key(log) && self.rev[log].len() > 0 {
            Some(self.rev[log].last())
        } else {
            None
        }
    }

    /// How many physical keys produce `log`.
    pub open spec fn producer_count(self, log: Keycode) -> nat {
        if self.rev.contains_key(log) {
            self.rev[log].len()
        } else {
            0
        }
    }

    /// The logical key that a held physical key produces, if it is held.
    pub open spec fn state_of(self, phys: Keycode) -> Option<KbctKeyState> {
        if self.fwd.contains_key(phys) {
            Some(self.fwd[phys])
        } else {
            None
        }
    }
}

/// Recording keeps the store's invariants.
pub(crate) proof fn lemma_record_wf(m: StoreModel, phys: Keycode, log: Keycode, status: KbctKeyStatus)
    requires
        m.wf(),
        m.clock < u64::MAX,
        status != KbctKeyStatus::Released,
        m.fwd.contains_key(phys) ==> m.fwd[phys].mapped_code == log,
    ensures
        m.record(phys, log, status).wf(),
{
    let n = m.record(phys, log, status);
    assert(n.fwd.dom() =~= m.fwd.dom().insert(phys));
    assert forall|p: Keycode| #[trigger] n.fwd.contains_key(p) implies {
        &&& n.rev.contains_key(n.fwd[p].mapped_code)
        &&& n.rev[n.fwd[p].mapped_code].contains(p)
        &&& n.fwd[p].status != KbctKeyStatus::Released
        &&& n.fwd[p].time < n.clock
    } by {
        if p == phys {
            if m.rev.contains_key(log) && !m.rev[log].contains(phys) {
                assert(m.rev[log].push(phys)[m.rev[log].len() as int] == phys);
            }
            if !m.rev.contains_key(log) {
                assert(seq![phys][0] == phys);
            }
        } else {
            let c = m.fwd[p].mapped_code;
            if c == log {
                let i = choose|i: int| 0 <= i < m.rev[log].len() && m.rev[log][i] == p;
                if !m.rev[log].contains(phys) {
                    assert(m.rev[log].push(phys)[i] == p);
                }
            }
        }
    }
    assert forall|l: Keycode| #[trigger] n.rev.contains_key(l) implies n.rev[l].len() > 0
        && n.rev[l].no_duplicates() by {
        if l == log && m.rev.contains_key(log) && !m.rev[log].contains(phys) {
            let s = m.rev[log].push(phys);
            assert forall|i: int, j: int| 0 <= i < s.len() && 0 <= j < s.len() && i != j implies s[i]
                != s[j] by {
                if i < s.len() - 1 && j < s.len() - 1 {
                } else if i < s.len() - 1 {
                    assert(m.rev[log][i] == s[i]);
                } else {
                    assert(m.rev[log][j] == s[j]);
                }
            }
        }
    }
    assert forall|l: Keycode, i: int|
        n.rev.contains_key(l) && 0 <= i < n.rev[l].len() implies n.fwd.contains_key(
        #[trigger] n.rev[l][i],
    ) && n.fwd[n.rev[l][i]].mapped_code == l by {
        if l == log {
            if !m.rev.contains_key(log) {
                assert(n.rev[l][i] == phys);
            } else if i < m.rev[log].len() {
                assert(n.rev[l][i] == m.rev[log][i]);
            } else {
                assert(n.rev[l][i] == phys);
            }
        } else {
            assert(n.rev[l][i] == m.rev[l][i]);
            if m.rev[l][i] == phys {
                assert(m.fwd[phys].mapped_code == l);
            }
        }
    }
}

/// Releasing a held key keeps the store's invariants.
pub(crate) proof fn lemma_release_wf(m: StoreModel, phys: Keycode)
    requires
        m.wf(),
        m.clock < u64::MAX,
        m.fwd.contains_key(phys),
    ensures
        m.release(phys).wf(),
{
    let n = m.release(phys);
    let log = m.fwd[phys].mapped_code;
    let rest = without(m.rev[log], phys);
    lemma_without(m.rev[log], phys);
    assert(n.fwd.dom() =~= m.fwd.dom().remove(phys));
    assert forall|p: Keycode| #[trigger] n.fwd.contains_key(p) implies {
        &&& n.rev.contains_key(n.fwd[p].mapped_code)
        &&& n.rev[n.fwd[p].mapped_code].contains(p)
        &&& n.fwd[p].status != KbctKeyStatus::Released
        &&& n.fwd[p].time < n.clock
    } by {
        let c = m.fwd[p].mapped_code;
        if c == log {
            assert(rest.contains(p));
        }
    }
    assert forall|l: Keycode, i: int|
        n.rev.contains_key(l) && 0 <= i < n.rev[l].len() implies n.fwd.contains_key(
        #[trigger] n.rev[l][i],
    ) && n.fwd[n.rev[l][i]].mapped_code == l by {
        if l == log {
            let x = rest[i];
            assert(rest.contains(x));
            assert(m.rev[log].contains(x));
        } else {
            assert(n.rev[l][i] == m.rev[l][i]);
        }
    }
}


/// The forward and reverse stores and the logical clock of one engine.
#[derive(Debug)]
pub struct KeyStateStore {
    source_to_mapped: KeyStateMap,
    mapped_to_source: HashMap<Keycode, KeySequenceSet>,
    logic_clock: u64,
}

impl View for KeyStateStore {
    type V = StoreModel;

    closed spec fn view(&self) -> StoreModel {
        StoreModel {
            fwd: key_states(self.source_to_mapped),
            rev: Map::new(
                |l: Keycode| self.mapped_to_source@.contains_key(l),
                |l: Keycode| source_order(self.mapped_to_source@[l]),
            ),
            clock: self.logic_clock as int,
        }
    }
}

impl KeyStateStore {
    /// An empty store with the clock at zero.
    pub fn new() -> (r: KeyStateStore)
        ensures
            r@.fwd.dom() == Set::<Keycode>::empty(),
            r@.rev.dom() == Set::<Keycode>::empty(),
            r@.clock == 0,
            r@.wf(),
    {
        let r = KeyStateStore {
            source_to_mapped: states_new(),
            mapped_to_source: HashMap::new(),
            logic_clock: 0,
        };
        assert(r@.rev.dom() =~= Set::<Keycode>::empty());
        assert(r@.fwd.dom() =~= Set::<Keycode>::empty());
        r
    }

    /// Whether the physical key is held.
    pub fn is_pressed(&self, phys: Keycode) -> (r: bool)
        ensures
            r == self@.fwd.contains_key(phys),
    {
        states_get(&self.source_to_mapped, phys).is_some()
    }

    /// The state of the physical key, if it is held.
    pub fn state_of(&self, phys: Keycode) -> (r: Option<KbctKeyState>)
        ensures
            r == self@.state_of(phys),
    {
        states_get(&self.source_to_mapped, phys)
    }

    /// The physical key that most recently started producing `log`.
    pub fn most_recent_source(&self, log: Keycode) -> (r: Option<Keycode>)
        ensures
            r == self@.most_recent_source(log),
    {
        match self.mapped_to_source.get(&log) {
            Some(set) => order_back(set),
            None => None,
        }
    }

    /// How many physical keys produce `log`.
    pub fn producer_count(&self, log: Keycode) -> (r: usize)
        ensures
            r == self@.producer_count(log),
    {
        match self.mapped_to_source.get(&log) {
            Some(set) => order_len(set),
            None => 0,
        }
    }

    /// The number of held physical keys.
    pub fn len(&self) -> (r: usize)
        ensures
            r == self@.fwd.len(),
    {
        states_len(&self.source_to_mapped)
    }

    /// The logical clock.
    pub fn clock(&self) -> (r: u64)
        ensures
            r == self@.clock,
    {
        self.logic_clock
    }

    /// Records that `phys` produces `log` with `status`, stamped with the clock,
    /// and advances the clock.
    pub fn record(&mut self, phys: Keycode, log: Keycode, status: KbctKeyStatus)
        requires
            old(self)@.wf(),
            old(self)@.clock < u64::MAX,
            status != KbctKeyStatus::Released,
            old(self)@.fwd.contains_key(phys) ==> old(self)@.fwd[phys].mapped_code == log,
        ensures
            final(self)@ == old(self)@.record(phys, log, status),
            final(self)@.wf(),
    {
        proof {
            lemma_record_wf(self@, phys, log, status);
        }
        let ghost m = self@;
        let state = KbctKeyState { time: self.logic_clock, mapped_code: log, status };
        let mut set = match self.mapped_to_source.remove(&log) {
            Some(set) => set,
            None => order_new(),
        };
        if !order_contains(&set, phys) {
            order_insert(&mut set, phys);
        }
        proof {
            if !m.rev.contains_key(log) {
                assert(source_order(set) =~= seq![phys]);
            }
        }
        self.mapped_to_source.insert(log, set);
        states_insert(&mut self.source_to_mapped, phys, state);
        self.logic_clock = self.logic_clock + 1;
        assert(self@.rev =~= m.record(phys, log, status).rev);
    }

    /// Releases the held key `phys`: it leaves both stores, and the clock
    /// advances.
    pub fn release(&mut self, phys: Keycode)
        requires
            old(self)@.wf(),
            old(self)@.clock < u64::MAX,
            old(self)@.fwd.contains_key(phys),
        ensures
            final(self)@ == old(self)@.release(phys),
            final(self)@.wf(),
    {
        proof {
            lemma_release_wf(self@, phys);
        }
        let ghost m = self@;
        let log = match states_get(&self.source_to_mapped, phys) {
            Some(st) => st.mapped_code,
            None => 0,
        };
        match self.mapped_to_source.remove(&log) {
            Some(mut set) => {
                order_remove(&mut set, phys);
                if order_len(&set) > 0 {
                    self.mapped_to_source.insert(log, set);
                }
            },
            None => {},
        }
        states_remove(&mut self.source_to_mapped, phys);
        self.logic_clock = self.logic_clock + 1;
        assert(self@.rev =~= m.release(phys).rev);
    }
}

} // verus!

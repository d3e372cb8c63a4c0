//! The mapping engine: from one input key event to the events to emit.

use vstd::prelude::*;

use crate::event::{KbctEvent, KbctKeyStatus, Keycode};
use crate::layers::{ascending, KeyMap, KeyPress, Layer, LayerModel};
use crate::store::{KeyStateStore, StoreModel};

verus! {

broadcast use vstd::std_specs::hash::group_hash_axioms;

/// The configuration of an engine as a value: the simple table and the layers.
pub ghost struct ConfigModel {
    pub simple: Map<Keycode, KeyPress>,
    pub layers: Seq<LayerModel>,
}

/// The whole of an engine as a value.
pub ghost struct EngineModel {
    pub conf: ConfigModel,
    pub store: StoreModel,
}

/// Whether every trigger key is held.
pub open spec fn is_candidate(s: StoreModel, triggers: Seq<Keycode>) -> bool {
    forall|i: int| 0 <= i < triggers.len() ==> s.fwd.contains_key(#[trigger] triggers[i])
}

/// The time of the latest state change of the key that most recently
/// started producing `m`; zero where nothing produces `m`.
pub open spec fn member_time(s: StoreModel, m: Keycode) -> int {
    match s.most_recent_source(m) {
        Some(p) => if s.fwd.contains_key(p) {
            s.fwd[p].time as int
        } else {
            0
        },
        None => 0,
    }
}

/// The last-press time of a trigger set: the largest member time, zero for
/// no members.
pub open spec fn press_time(s: StoreModel, t: Seq<Keycode>) -> int
    decreases t.len(),
{
    if t.len() == 0 {
        0
    } else {
        let rest = press_time(s, t.drop_last());
        let m = member_time(s, t.last());
        if m > rest {
            m
        } else {
            rest
        }
    }
}

/// Whether trigger set `a` wins over `b`: it is larger, or as large and
/// completed no earlier.
pub open spec fn outranks(s: StoreModel, a: Seq<Keycode>, b: Seq<Keycode>) -> bool {
    a.len() > b.len() || (a.len() == b.len() && press_time(s, a) >= press_time(s, b))
}

/// The winner among the first `n` layers: each candidate in turn takes over
/// from the winner so far unless that one outranks it strictly.
pub open spec fn select_upto(s: StoreModel, layers: Seq<LayerModel>, n: int) -> Option<int>
    decreases n,
{
    if n <= 0 {
        None
    } else {
        let prev = select_upto(s, layers, n - 1);
        if is_candidate(s, layers[n - 1].triggers) && (prev is None || outranks(
            s,
            layers[n - 1].triggers,
            layers[prev->Some_0].triggers,
        )) {
            Some(n - 1)
        } else {
            prev
        }
    }
}

/// The index of the active layer, if any.
pub open spec fn active_layer(s: StoreModel, layers: Seq<LayerModel>) -> Option<int> {
    select_upto(s, layers, layers.len() as int)
}

/// The target of `code` in the simple table; the code itself if absent.
pub open spec fn simple_target(conf: ConfigModel, code: Keycode) -> Keycode {
    if conf.simple.contains_key(code) {
        conf.simple[code].code
    } else {
        code
    }
}

/// The target of `code` in the active layer, if it has one.
pub open spec fn complex_target(conf: ConfigModel, s: StoreModel, code: Keycode) -> Option<
    Keycode,
> {
    match active_layer(s, conf.layers) {
        Some(i) => if conf.layers[i].keymap.contains_key(code) {
            Some(conf.layers[i].keymap[code].code)
        } else {
            None
        },
        None => None,
    }
}

/// The logical key that a click of `code` produces.
pub open spec fn resolved_target(conf: ConfigModel, s: StoreModel, code: Keycode) -> Keycode {
    match complex_target(conf, s, code) {
        Some(t) => t,
        None => simple_target(conf, code),
    }
}

/// A state change of a held trigger key, made around a click.
#[derive(Debug, Copy, Clone, PartialEq, Eq, Structural)]
pub struct SyntheticEvent {
    pub source: Keycode,
    pub target: Keycode,
    pub status: KbctKeyStatus,
}

/// The synthetic events for the trigger keys `t`, in their order: a clicked
/// trigger is force-released before a layered key, a force-released one is
/// clicked again before a key that the layer does not remap.
pub open spec fn synthetic(s: StoreModel, t: Seq<Keycode>, is_complex: bool) -> Seq<SyntheticEvent>
    decreases t.len(),
{
    if t.len() == 0 {
        Seq::empty()
    } else {
        let prev = synthetic(s, t.drop_last(), is_complex);
        let m = t.last();
        if !s.fwd.contains_key(m) {
            prev
        } else if s.fwd[m].status == KbctKeyStatus::Clicked && is_complex {
            prev.push(
                SyntheticEvent {
                    source: m,
                    target: s.fwd[m].mapped_code,
                    status: KbctKeyStatus::ForceReleased,
                },
            )
        } else if s.fwd[m].status == KbctKeyStatus::ForceReleased && !is_complex {
            prev.push(
                SyntheticEvent {
                    source: m,
                    target: s.fwd[m].mapped_code,
                    status: KbctKeyStatus::Clicked,
                },
            )
        } else {
            prev
        }
    }
}

/// The store after recording each synthetic event in turn.
pub open spec fn apply_synthetic(s: StoreModel, e: Seq<SyntheticEvent>) -> StoreModel
    decreases e.len(),
{
    if e.len() == 0 {
        s
    } else {
        apply_synthetic(s, e.drop_last()).record(e.last().source, e.last().target, e.last().status)
    }
}

/// The event that a synthetic event emits.
pub open spec fn emitted(e: SyntheticEvent) -> KbctEvent {
    KbctEvent { code: e.target, ev_type: e.status }
}

/// The trigger keys of the active layer; none without one.
pub open spec fn active_triggers(conf: ConfigModel, s: StoreModel) -> Seq<Keycode> {
    match active_layer(s, conf.layers) {
        Some(i) => conf.layers[i].triggers,
        None => Seq::empty(),
    }
}

/// The synthetic events of a click of `code`.
pub open spec fn click_synthetic(conf: ConfigModel, s: StoreModel, code: Keycode) -> Seq<
    SyntheticEvent,
> {
    synthetic(s, active_triggers(conf, s), complex_target(conf, s, code) is Some)
}

/// A click of a key that is not held.
pub open spec fn click_step(conf: ConfigModel, s: StoreModel, code: Keycode) -> (
    StoreModel,
    Seq<KbctEvent>,
) {
    let eff = click_synthetic(conf, s, code);
    let target = resolved_target(conf, s, code);
    (
        apply_synthetic(s, eff).record(code, target, KbctKeyStatus::Clicked),
        eff.map_values(|e: SyntheticEvent| emitted(e)).push(
            KbctEvent { code: target, ev_type: KbctKeyStatus::Clicked },
        ),
    )
}

/// The status of a physical key: released unless held.
pub open spec fn prev_status(s: StoreModel, code: Keycode) -> KbctKeyStatus {
    if s.fwd.contains_key(code) {
        s.fwd[code].status
    } else {
        KbctKeyStatus::Released
    }
}

/// One step of the engine: the store after the event and the events emitted.
pub open spec fn step(conf: ConfigModel, s: StoreModel, ev: KbctEvent) -> (
    StoreModel,
    Seq<KbctEvent>,
) {
    let code = ev.code;
    let mapped = s.fwd[code].mapped_code;
    match (prev_status(s, code), ev.ev_type) {
        (KbctKeyStatus::Released, KbctKeyStatus::Clicked) => click_step(conf, s, code),
        (KbctKeyStatus::Clicked, KbctKeyStatus::Released)
        | (KbctKeyStatus::Pressed, KbctKeyStatus::Released) => (
            s.release(code),
            if s.producer_count(mapped) == 1 {
                seq![KbctEvent { code: mapped, ev_type: KbctKeyStatus::Released }]
            } else {
                Seq::empty()
            },
        ),
        (KbctKeyStatus::ForceReleased, KbctKeyStatus::Released) => (s.release(code), Seq::empty()),
        (KbctKeyStatus::Clicked, KbctKeyStatus::Pressed)
        | (KbctKeyStatus::Pressed, KbctKeyStatus::Pressed) => (
            s,
            seq![KbctEvent { code: mapped, ev_type: KbctKeyStatus::Pressed }],
        ),
        _ => (s, Seq::empty()),
    }
}


impl EngineModel {
    /// The engine's invariants: those of the store, and trigger keys in
    /// ascending order in every layer.
    pub open spec fn wf(self) -> bool {
        &&& self.store.wf()
        &&& forall|i: int| 0 <= i < self.conf.layers.len() ==> ascending(#[trigger] self.conf.layers[i].triggers)
    }

    /// Whether the clock can count every change that one event makes.
    pub open spec fn has_room(self) -> bool {
        self.store.clock + self.store.fwd.len() + 1 < u64::MAX
    }
}

/// The winner among the first `n` layers is one of them, and a candidate.
pub(crate) proof fn lemma_select(s: StoreModel, layers: Seq<LayerModel>, n: int)
    requires
        n <= layers.len(),
    ensures
        match select_upto(s, layers, n) {
            Some(i) => 0 <= i < n && is_candidate(s, layers[i].triggers),
            None => true,
        },
    decreases n,
{
    if n > 0 {
        lemma_select(s, layers, n - 1);
    }
}

/// A candidate trigger set has no more keys than are held.
pub(crate) proof fn lemma_candidate_len(s: StoreModel, t: Seq<Keycode>)
    requires
        s.wf(),
        ascending(t),
        is_candidate(s, t),
    ensures
        t.len() <= s.fwd.len(),
{
    assert(t.no_duplicates());
    t.unique_seq_to_set();
    assert forall|x: Keycode| t.to_set().contains(x) implies s.fwd.dom().contains(x) by {
        let i = choose|i: int| 0 <= i < t.len() && t[i] == x;
        assert(s.fwd.contains_key(t[i]));
    }
    vstd::set_lib::lemma_len_subset(t.to_set(), s.fwd.dom());
}

/// Each synthetic event comes from a held trigger key and carries what that
/// key produces, force-released before a layered key, clicked otherwise.
pub(crate) proof fn lemma_synthetic(s: StoreModel, t: Seq<Keycode>, c: bool)
    ensures
        synthetic(s, t, c).len() <= t.len(),
        forall|k: int|
            0 <= k < synthetic(s, t, c).len() ==> {
                let e = #[trigger] synthetic(s, t, c)[k];
                &&& s.fwd.contains_key(e.source)
                &&& t.contains(e.source)
                &&& e.target == s.fwd[e.source].mapped_code
                &&& e.status != KbctKeyStatus::Released
                &&& (e.status == KbctKeyStatus::ForceReleased) == c
                &&& (e.status == KbctKeyStatus::Clicked) == !c
            },
    decreases t.len(),
{
    if t.len() > 0 {
        lemma_synthetic(s, t.drop_last(), c);
        let p = synthetic(s, t.drop_last(), c);
        assert forall|k: int| 0 <= k < p.len() implies t.contains(#[trigger] p[k].source) by {
            let i = choose|i: int| 0 <= i < t.drop_last().len() && t.drop_last()[i] == p[k].source;
            assert(t[i] == p[k].source);
        }
        assert(t[t.len() - 1] == t.last());
    }
}

/// Recording one more synthetic event extends the run by one record.
proof fn lemma_apply_synthetic_step(s: StoreModel, e: Seq<SyntheticEvent>, j: int)
    requires
        0 <= j < e.len(),
    ensures
        apply_synthetic(s, e.subrange(0, j + 1)) == apply_synthetic(s, e.subrange(0, j)).record(
            e[j].source,
            e[j].target,
            e[j].status,
        ),
{
    assert(e.subrange(0, j + 1).drop_last() =~= e.subrange(0, j));
}

/// A keyboard's mapping engine: its configuration and its key-state store.
#[derive(Debug)]
pub struct Kbct {
    simple_map: KeyMap,
    complex_map: Vec<Layer>,
    store: KeyStateStore,
}

impl View for Kbct {
    type V = EngineModel;

    closed spec fn view(&self) -> EngineModel {
        EngineModel {
            conf: ConfigModel {
                simple: self.simple_map@,
                layers: self.complex_map@.map_values(|l: Layer| l@),
            },
            store: self.store@,
        }
    }
}

impl Kbct {
    /// An engine with the given simple table and layers and no key held.
    ///
    /// Where two layers have the same trigger keys the later one is never
    /// outranked by the earlier, which is thus never active.
    pub fn new_test(simple_keymap: KeyMap, complex_keymap: Vec<Layer>) -> (r: Kbct)
        requires
            forall|i: int| 0 <= i < complex_keymap@.len() ==> ascending(#[trigger] complex_keymap@[i]@.triggers),
        ensures
            r@.wf(),
            r@.conf.simple == simple_keymap@,
            r@.conf.layers == complex_keymap@.map_values(|l: Layer| l@),
            r@.store.fwd.dom() == Set::<Keycode>::empty(),
            r@.store.rev.dom() == Set::<Keycode>::empty(),
            r@.store.clock == 0,
    {
        Kbct { simple_map: simple_keymap, complex_map: complex_keymap, store: KeyStateStore::new() }
    }

    /// The event `(code, ev_type)`.
    pub fn make_ev(code: Keycode, ev_type: KbctKeyStatus) -> (r: KbctEvent)
        ensures
            r == (KbctEvent { code, ev_type }),
    {
        KbctEvent { code, ev_type }
    }

    /// The key-state store.
    pub fn key_states(&self) -> (r: &KeyStateStore)
        ensures
            r@ == self@.store,
    {
        &self.store
    }

    /// The simple table.
    pub fn simple_map(&self) -> (r: &KeyMap)
        ensures
            r@ == self@.conf.simple,
    {
        &self.simple_map
    }

    /// The layers, in the order of the configuration.
    pub fn layers(&self) -> (r: &Vec<Layer>)
        ensures
            r@.map_values(|l: Layer| l@) == self@.conf.layers,
    {
        &self.complex_map
    }

    /// Whether the clock can count every change that the next event makes.
    pub fn has_room(&self) -> (r: bool)
        ensures
            r == self@.has_room(),
    {
        let n = self.store.len();
        let c = self.store.clock();
        c <= u64::MAX - 1 && (n as u64) < u64::MAX - 1 - c
    }

    /// The physical key that most recently started producing `code`.
    fn get_last_source_mapping_to(&self, code: Keycode) -> (r: Option<Keycode>)
        ensures
            r == self@.store.most_recent_source(code),
    {
        self.store.most_recent_source(code)
    }

    /// The time of the latest change of the most recent producer of `m`.
    fn member_time(&self, m: Keycode) -> (r: u64)
        ensures
            r as int == member_time(self@.store, m),
    {
        match self.get_last_source_mapping_to(m) {
            Some(p) => match self.store.state_of(p) {
                Some(st) => st.time,
                None => 0,
            },
            None => 0,
        }
    }

    /// The last-press time of the trigger keys `t`.
    fn press_time(&self, t: &Vec<Keycode>) -> (r: u64)
        ensures
            r as int == press_time(self@.store, t@),
    {
        let mut acc: u64 = 0;
        let mut i: usize = 0;
        while i < t.len()
            invariant
                i <= t@.len(),
                acc as int == press_time(self@.store, t@.subrange(0, i as int)),
            decreases t@.len() - i,
        {
            let m = self.member_time(t[i]);
            assert(t@.subrange(0, i + 1).drop_last() =~= t@.subrange(0, i as int));
            if m > acc {
                acc = m;
            }
            i = i + 1;
        }
        assert(t@.subrange(0, t@.len() as int) =~= t@);
        acc
    }

    /// Whether every key of `t` is held.
    fn all_pressed(&self, t: &Vec<Keycode>) -> (r: bool)
        ensures
            r == is_candidate(self@.store, t@),
    {
        let mut i: usize = 0;
        while i < t.len()
            invariant
                i <= t@.len(),
                forall|k: int| 0 <= k < i ==> self@.store.fwd.contains_key(#[trigger] t@[k]),
            decreases t@.len() - i,
        {
            if !self.store.is_pressed(t[i]) {
                return false;
            }
            i = i + 1;
        }
        true
    }

    /// The index of the active layer, if any.
    fn active_layer_index(&self) -> (r: Option<usize>)
        ensures
            r is None <==> active_layer(self@.store, self@.conf.layers) is None,
            r matches Some(i) ==> active_layer(self@.store, self@.conf.layers) == Some(i as int)
                && i < self@.conf.layers.len(),
    {
        proof {
            lemma_select(self@.store, self@.conf.layers, self@.conf.layers.len() as int);
        }
        let ghost layers = self@.conf.layers;
        let mut best: Option<usize> = None;
        let mut i: usize = 0;
        while i < self.complex_map.len()
            invariant
                i <= self.complex_map@.len(),
                layers == self@.conf.layers,
                layers.len() == self.complex_map@.len(),
                match select_upto(self@.store, layers, i as int) {
                    Some(k) => best == Some(k as usize) && 0 <= k < i,
                    None => best is None,
                },
            decreases self.complex_map@.len() - i,
        {
            proof {
                lemma_select(self@.store, layers, i as int);
            }
            let t = self.complex_map[i].modifiers();
            if self.all_pressed(t) {
                match best {
                    None => {
                        best = Some(i);
                    },
                    Some(b) => {
                        let u = self.complex_map[b].modifiers();
                        if t.len() > u.len() || (t.len() == u.len() && self.press_time(t)
                            >= self.press_time(u)) {
                            best = Some(i);
                        }
                    },
                }
            }
            i = i + 1;
        }
        best
    }

    /// The layer whose remaps apply now: among the layers whose trigger keys
    /// are all held, the one with the most trigger keys, and among those the
    /// one whose trigger keys were completed last.
    pub fn get_active_complex_modifiers(&self) -> (r: Option<&Layer>)
        ensures
            match active_layer(self@.store, self@.conf.layers) {
                Some(i) => match r {
                    Some(l) => l@ == self@.conf.layers[i],
                    None => false,
                },
                None => r is None,
            },
    {
        let idx = self.active_layer_index();
        let ghost act = active_layer(self@.store, self@.conf.layers);
        match idx {
            Some(i) => {
                assert(act == Some(i as int));
                let l: &Layer = &self.complex_map[i];
                assert(l@ == self@.conf.layers[i as int]);
                Some(l)
            },
            None => {
                assert(act is None);
                None
            },
        }
    }

    /// The synthetic events for the trigger keys `t` of the active layer.
    fn synthetic_effects(&self, t: &Vec<Keycode>, is_complex: bool) -> (r: Vec<SyntheticEvent>)
        ensures
            r@ == synthetic(self@.store, t@, is_complex),
    {
        let mut r: Vec<SyntheticEvent> = Vec::new();
        let mut i: usize = 0;
        while i < t.len()
            invariant
                i <= t@.len(),
                r@ == synthetic(self@.store, t@.subrange(0, i as int), is_complex),
            decreases t@.len() - i,
        {
            let m = t[i];
            assert(t@.subrange(0, i + 1).drop_last() =~= t@.subrange(0, i as int));
            match self.store.state_of(m) {
                Some(ms) => {
                    if ms.status == KbctKeyStatus::Clicked && is_complex {
                        r.push(
                            SyntheticEvent {
                                source: m,
                                target: ms.mapped_code,
                                status: KbctKeyStatus::ForceReleased,
                            },
                        );
                    } else if ms.status == KbctKeyStatus::ForceReleased && !is_complex {
                        r.push(
                            SyntheticEvent {
                                source: m,
                                target: ms.mapped_code,
                                status: KbctKeyStatus::Clicked,
                            },
                        );
                    }
                },
                None => {},
            }
            i = i + 1;
        }
        assert(t@.subrange(0, t@.len() as int) =~= t@);
        r
    }

    /// A click of a key that is not held: the synthetic events of the active
    /// layer's trigger keys, then the click of the key's target.
    fn on_click(&mut self, code: Keycode) -> (r: Vec<KbctEvent>)
        requires
            old(self)@.wf(),
            old(self)@.has_room(),
            !old(self)@.store.fwd.contains_key(code),
        ensures
            final(self)@.wf(),
            final(self)@.conf == old(self)@.conf,
            (final(self)@.store, r@) == click_step(old(self)@.conf, old(self)@.store, code),
    {
        let ghost s0 = self@.store;
        let ghost conf = self@.conf;
        let active = self.active_layer_index();
        let mut complex: Option<Keycode> = None;
        match active {
            Some(i) => match self.complex_map[i].keymap().get(&code) {
                Some(kp) => {
                    complex = Some(kp.code);
                },
                None => {},
            },
            None => {},
        }
        assert(complex == complex_target(conf, s0, code));
        let target = match complex {
            Some(t) => t,
            None => match self.simple_map.get(&code) {
                Some(kp) => kp.code,
                None => code,
            },
        };
        assert(target == resolved_target(conf, s0, code));
        let effects = match active {
            Some(i) => self.synthetic_effects(self.complex_map[i].modifiers(), complex.is_some()),
            None => Vec::new(),
        };
        proof {
            let t = active_triggers(conf, s0);
            assert(effects@ == synthetic(s0, t, complex is Some)) by {
                if active is None {
                    reveal_with_fuel(synthetic, 1);
                    assert(effects@ =~= synthetic(s0, t, complex is Some));
                }
            }
            lemma_synthetic(s0, t, complex is Some);
            lemma_select(s0, conf.layers, conf.layers.len() as int);
            if active_layer(s0, conf.layers) is Some {
                lemma_candidate_len(s0, t);
            }
        }
        let mut j: usize = 0;
        while j < effects.len()
            invariant
                j <= effects@.len(),
                effects@.len() <= s0.fwd.len(),
                self@.wf(),
                self@.conf == conf,
                self@.store == apply_synthetic(s0, effects@.subrange(0, j as int)),
                self@.store.fwd.dom() == s0.fwd.dom(),
                forall|x: Keycode| #[trigger]
                    s0.fwd.contains_key(x) ==> self@.store.fwd[x].mapped_code
                        == s0.fwd[x].mapped_code,
                self@.store.clock == s0.clock + j,
                s0.clock + s0.fwd.len() + 1 < u64::MAX,
                !s0.fwd.contains_key(code),
                forall|k: int|
                    0 <= k < effects@.len() ==> {
                        let e = #[trigger] effects@[k];
                        &&& s0.fwd.contains_key(e.source)
                        &&& e.target == s0.fwd[e.source].mapped_code
                        &&& e.status != KbctKeyStatus::Released
                    },
            decreases effects@.len() - j,
        {
            let e = effects[j];
            proof {
                lemma_apply_synthetic_step(s0, effects@, j as int);
            }
            self.change_key_state(e.source, e.target, e.status);
            assert(self@.store.fwd.dom() =~= s0.fwd.dom());
            j = j + 1;
        }
        assert(effects@.subrange(0, effects@.len() as int) =~= effects@);
        self.change_key_state(code, target, KbctKeyStatus::Clicked);
        let mut result: Vec<KbctEvent> = Vec::new();
        let mut k: usize = 0;
        while k < effects.len()
            invariant
                k <= effects@.len(),
                result@ == effects@.subrange(0, k as int).map_values(|e: SyntheticEvent| emitted(e)),
            decreases effects@.len() - k,
        {
            result.push(Kbct::make_ev(effects[k].target, effects[k].status));
            k = k + 1;
            assert(result@ =~= effects@.subrange(0, k as int).map_values(
                |e: SyntheticEvent| emitted(e),
            ));
        }
        result.push(Kbct::make_ev(target, KbctKeyStatus::Clicked));
        result
    }

    /// Maps one input event to the events to emit, in order, and updates the
    /// key-state store.
    pub fn map_event(&mut self, ev: KbctEvent) -> (r: Vec<KbctEvent>)
        requires
            old(self)@.wf(),
            old(self)@.has_room(),
        ensures
            final(self)@.wf(),
            final(self)@.conf == old(self)@.conf,
            (final(self)@.store, r@) == step(old(self)@.conf, old(self)@.store, ev),
    {
        let code = ev.code;
        let prev = self.store.state_of(code);
        let prev_status = match prev {
            Some(st) => st.status,
            None => KbctKeyStatus::Released,
        };
        let mut result: Vec<KbctEvent> = Vec::new();
        match (prev_status, ev.ev_type) {
            (KbctKeyStatus::Released, KbctKeyStatus::Clicked) => {
                result = self.on_click(code);
            },
            (KbctKeyStatus::Clicked, KbctKeyStatus::Released)
            | (KbctKeyStatus::Pressed, KbctKeyStatus::Released) => {
                if let Some(st) = prev {
                    let mapped = st.mapped_code;
                    if self.store.producer_count(mapped) == 1 {
                        result.push(Kbct::make_ev(mapped, KbctKeyStatus::Released));
                    }
                    self.change_key_state(code, mapped, KbctKeyStatus::Released);
                }
            },
            (KbctKeyStatus::ForceReleased, KbctKeyStatus::Released) => {
                if let Some(st) = prev {
                    self.change_key_state(code, st.mapped_code, KbctKeyStatus::Released);
                }
            },
            (KbctKeyStatus::Clicked, KbctKeyStatus::Pressed)
            | (KbctKeyStatus::Pressed, KbctKeyStatus::Pressed) => {
                if let Some(st) = prev {
                    result.push(Kbct::make_ev(st.mapped_code, KbctKeyStatus::Pressed));
                }
            },
            _ => {},
        }
        assert(result@ =~= step(old(self)@.conf, old(self)@.store, ev).1);
        result
    }

    /// Records `source` as producing `mapped` with `status`, or releases it.
    fn change_key_state(&mut self, source: Keycode, mapped: Keycode, status: KbctKeyStatus)
        requires
            old(self)@.wf(),
            old(self)@.store.clock < u64::MAX,
            old(self)@.store.fwd.contains_key(source) ==> old(self)@.store.fwd[source].mapped_code
                == mapped,
            status == KbctKeyStatus::Released ==> old(self)@.store.fwd.contains_key(source),
        ensures
            final(self)@.wf(),
            final(self)@.conf == old(self)@.conf,
            final(self)@.store == (if status == KbctKeyStatus::Released {
                old(self)@.store.release(source)
            } else {
                old(self)@.store.record(source, mapped, status)
            }),
    {
        if status != KbctKeyStatus::Released {
            self.store.record(source, mapped, status);
        } else {
            self.store.release(source);
        }
        assert(self@.conf == old(self)@.conf);
    }
}

} // verus!

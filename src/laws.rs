//! Properties of the engine that hold of every state and every run.
//!
//! `Kbct::map_event` keeps `EngineModel::wf` and follows `step` exactly, so
//! what is proved here of `step` and of a well-formed store holds of the
//! engine after any sequence of events.

use vstd::prelude::*;

use crate::engine::{
    active_layer, active_triggers, click_synthetic, complex_target, emitted, is_candidate, lemma_select, lemma_synthetic,
    outranks, press_time, prev_status, resolved_target, select_upto, simple_target, step, synthetic,
    apply_synthetic, ConfigModel, EngineModel,
};
use crate::event::{KbctEvent, KbctKeyStatus, Keycode};
use crate::layers::LayerModel;
use crate::store::{lemma_without, without, StoreModel};

verus! {

/// Every held physical key is among the producers of the logical key that it
/// is mapped to.
pub proof fn lemma_held_key_is_producer(s: StoreModel, phys: Keycode)
    requires
        s.wf(),
        s.fwd.contains_key(phys),
    ensures
        s.rev.contains_key(s.fwd[phys].mapped_code),
        s.rev[s.fwd[phys].mapped_code].contains(phys),
{
}

/// No logical key in the reverse store has an empty set of producers.
pub proof fn lemma_producers_nonempty(s: StoreModel, log: Keycode)
    requires
        s.wf(),
        s.rev.contains_key(log),
    ensures
        s.rev[log].len() > 0,
        s.producer_count(log) > 0,
{
}

/// A logical key without producers is not in the reverse store.
pub proof fn lemma_no_producer_not_stored(s: StoreModel, log: Keycode)
    requires
        s.wf(),
        s.producer_count(log) == 0,
    ensures
        !s.rev.contains_key(log),
{
}

/// The physical keys that produce some logical key.
pub open spec fn producers(s: StoreModel) -> Set<Keycode> {
    Set::new(|p: Keycode| exists|l: Keycode| s.rev.contains_key(l) && #[trigger] s.rev[l].contains(p))
}

/// The forward store holds exactly the keys that the engine considers
/// pressed, the producers of the reverse store, and as many entries as
/// there are such keys.
pub proof fn lemma_forward_counts_pressed(s: StoreModel)
    requires
        s.wf(),
    ensures
        s.fwd.dom() == producers(s),
        s.fwd.len() == producers(s).len(),
{
    assert forall|p: Keycode| s.fwd.dom().contains(p) <==> producers(s).contains(p) by {
        if s.fwd.contains_key(p) {
            assert(s.rev[s.fwd[p].mapped_code].contains(p));
        }
        if producers(s).contains(p) {
            let l = choose|l: Keycode| s.rev.contains_key(l) && #[trigger] s.rev[l].contains(p);
            let i = choose|i: int| 0 <= i < s.rev[l].len() && s.rev[l][i] == p;
            assert(s.fwd.contains_key(s.rev[l][i]));
        }
    }
    assert(s.fwd.dom() =~= producers(s));
}

/// The output of a step ends with the event of the input key itself; only
/// the synthetic events of the active layer's trigger keys come before it.
pub proof fn lemma_primary_event_last(conf: ConfigModel, s: StoreModel, ev: KbctEvent)
    requires
        s.wf(),
    ensures
        ({
            let out = step(conf, s, ev).1;
            if prev_status(s, ev.code) == KbctKeyStatus::Released && ev.ev_type
                == KbctKeyStatus::Clicked {
                &&& out.len() > 0
                &&& out.last() == (KbctEvent {
                    code: resolved_target(conf, s, ev.code),
                    ev_type: KbctKeyStatus::Clicked,
                })
                &&& forall|k: int|
                    0 <= k < out.len() - 1 ==> {
                        let e = #[trigger] click_synthetic(conf, s, ev.code)[k];
                        &&& out[k] == emitted(e)
                        &&& active_triggers(conf, s).contains(e.source)
                        &&& out[k].code == s.fwd[e.source].mapped_code
                        &&& (out[k].ev_type == KbctKeyStatus::ForceReleased || out[k].ev_type
                            == KbctKeyStatus::Clicked)
                    }
            } else {
                &&& out.len() <= 1
                &&& out.len() == 1 ==> out[0].code == s.fwd[ev.code].mapped_code
                    && out[0].ev_type == ev.ev_type
            }
        }),
{
    let t = active_triggers(conf, s);
    let c = complex_target(conf, s, ev.code) is Some;
    lemma_synthetic(s, t, c);
}

/// The active layer outranks every other candidate: none has more trigger
/// keys, and none as many completed later.
pub proof fn lemma_active_layer_is_greatest(s: StoreModel, layers: Seq<LayerModel>, n: int, c: int)
    requires
        0 <= c < n <= layers.len(),
        is_candidate(s, layers[c].triggers),
    ensures
        select_upto(s, layers, n) matches Some(w) && outranks(
            s,
            layers[w].triggers,
            layers[c].triggers,
        ),
    decreases n,
{
    lemma_select(s, layers, n);
    if c < n - 1 {
        lemma_active_layer_is_greatest(s, layers, n - 1, c);
    }
}

/// Of two candidate layers with as many trigger keys, the one whose trigger
/// keys were completed later wins over the other.
pub proof fn lemma_later_layer_wins(s: StoreModel, layers: Seq<LayerModel>, i: int, j: int)
    requires
        0 <= i < layers.len(),
        0 <= j < layers.len(),
        is_candidate(s, layers[i].triggers),
        is_candidate(s, layers[j].triggers),
        layers[i].triggers.len() == layers[j].triggers.len(),
        press_time(s, layers[i].triggers) > press_time(s, layers[j].triggers),
    ensures
        active_layer(s, layers) != Some(j),
{
    lemma_active_layer_is_greatest(s, layers, layers.len() as int, i);
}


/// Of two layers with the same trigger keys, the earlier is never active:
/// the later entry of the configuration wins.
pub proof fn lemma_later_duplicate_layer_wins(s: StoreModel, layers: Seq<LayerModel>, i: int, j: int)
    requires
        0 <= i < j < layers.len(),
        layers[i].triggers == layers[j].triggers,
    ensures
        active_layer(s, layers) != Some(i),
{
    lemma_duplicate_shadowed_upto(s, layers, i, j, layers.len() as int);
}

/// Once the later of two layers with the same trigger keys has been
/// considered, the earlier one is not the winner.
proof fn lemma_duplicate_shadowed_upto(s: StoreModel, layers: Seq<LayerModel>, i: int, j: int, n: int)
    requires
        0 <= i < j < n <= layers.len(),
        layers[i].triggers == layers[j].triggers,
    ensures
        select_upto(s, layers, n) != Some(i),
    decreases n,
{
    if n - 1 > j {
        lemma_duplicate_shadowed_upto(s, layers, i, j, n - 1);
    } else {
        lemma_select(s, layers, j);
    }
}

/// The event `(code, ev_type)`, as a spec value.
pub open spec fn ev(code: Keycode, ev_type: KbctKeyStatus) -> KbctEvent {
    KbctEvent { code, ev_type }
}

/// Two distinct held keys that alone produce one logical key: releasing the
/// first emits nothing, releasing the second then emits the logical release.
pub proof fn lemma_co_producer_release(conf: ConfigModel, s: StoreModel, p1: Keycode, p2: Keycode)
    requires
        s.wf(),
        s.clock < u64::MAX,
        p1 != p2,
        s.fwd.contains_key(p1),
        s.fwd.contains_key(p2),
        s.fwd[p1].mapped_code == s.fwd[p2].mapped_code,
        forall|p: Keycode|
            s.fwd.contains_key(p) && #[trigger] s.fwd[p].mapped_code == s.fwd[p1].mapped_code ==> p
                == p1 || p == p2,
        s.fwd[p1].status == KbctKeyStatus::Clicked || s.fwd[p1].status == KbctKeyStatus::Pressed,
        s.fwd[p2].status == KbctKeyStatus::Clicked || s.fwd[p2].status == KbctKeyStatus::Pressed,
    ensures
        step(conf, s, ev(p1, KbctKeyStatus::Released)).1 == Seq::<KbctEvent>::empty(),
        step(conf, step(conf, s, ev(p1, KbctKeyStatus::Released)).0, ev(p2, KbctKeyStatus::Released)).1
            == seq![ev(s.fwd[p1].mapped_code, KbctKeyStatus::Released)],
{
    let m = s.fwd[p1].mapped_code;
    let r = s.rev[m];
    assert(r.contains(p1) && r.contains(p2));
    r.unique_seq_to_set();
    assert forall|x: Keycode| r.to_set().contains(x) <==> set![p1, p2].contains(x) by {
        if r.contains(x) {
            let i = choose|i: int| 0 <= i < r.len() && r[i] == x;
            assert(s.fwd.contains_key(r[i]) && s.fwd[r[i]].mapped_code == m);
        }
    }
    assert(r.to_set() =~= set![p1, p2]);
    assert(r.len() == 2);
    lemma_without(r, p1);
    let s1 = s.release(p1);
    assert(s1.rev[m] == without(r, p1));
    assert(s1.fwd[p2] == s.fwd[p2]);
    assert(step(conf, s1, ev(p2, KbctKeyStatus::Released)).1 =~= seq![
        ev(m, KbctKeyStatus::Released),
    ]);
}

/// An idle engine (no key held) clicks no layer's trigger keys before a key.
proof fn lemma_idle_click(conf: ConfigModel, s: StoreModel, k: Keycode)
    requires
        (EngineModel { conf, store: s }).wf(),
        s.fwd.dom() == Set::<Keycode>::empty(),
        forall|i: int| 0 <= i < conf.layers.len() ==> !(#[trigger] conf.layers[i]).keymap.contains_key(k),
    ensures
        click_synthetic(conf, s, k) == Seq::<crate::engine::SyntheticEvent>::empty(),
        resolved_target(conf, s, k) == simple_target(conf, k),
{
    lemma_select(s, conf.layers, conf.layers.len() as int);
    let t = active_triggers(conf, s);
    if t.len() > 0 {
        assert(s.fwd.contains_key(t[0]));
    }
    assert(synthetic(s, t, false) =~= Seq::<crate::engine::SyntheticEvent>::empty());
}

/// From idle, a click and a release of a key that no layer remaps emit the
/// click and the release of its simple target.
proof fn lemma_idle_round_trip(conf: ConfigModel, s: StoreModel, k: Keycode)
    requires
        (EngineModel { conf, store: s }).wf(),
        s.fwd.dom() == Set::<Keycode>::empty(),
        s.clock < u64::MAX,
        forall|i: int| 0 <= i < conf.layers.len() ==> !(#[trigger] conf.layers[i]).keymap.contains_key(k),
    ensures
        step(conf, s, ev(k, KbctKeyStatus::Clicked)).1 == seq![
            ev(simple_target(conf, k), KbctKeyStatus::Clicked),
        ],
        step(conf, step(conf, s, ev(k, KbctKeyStatus::Clicked)).0, ev(k, KbctKeyStatus::Released)).1
            == seq![ev(simple_target(conf, k), KbctKeyStatus::Released)],
{
    lemma_idle_click(conf, s, k);
    let m = simple_target(conf, k);
    let eff = click_synthetic(conf, s, k);
    assert(apply_synthetic(s, eff) == s);
    assert(eff.map_values(|e: crate::engine::SyntheticEvent| emitted(e)) =~= Seq::<KbctEvent>::empty());
    assert(step(conf, s, ev(k, KbctKeyStatus::Clicked)).1 =~= seq![ev(m, KbctKeyStatus::Clicked)]);
    let s1 = s.record(k, m, KbctKeyStatus::Clicked);
    assert(!s.rev.contains_key(m)) by {
        if s.rev.contains_key(m) {
            assert(s.fwd.contains_key(s.rev[m][0]));
        }
    }
    assert(s1.producer_count(m) == 1);
    assert(step(conf, s1, ev(k, KbctKeyStatus::Released)).1 =~= seq![
        ev(m, KbctKeyStatus::Released),
    ]);
}

/// From idle, clicking and releasing a key that nothing remaps emits the
/// click and the release of the key itself.
pub proof fn lemma_unmapped_round_trip(conf: ConfigModel, s: StoreModel, k: Keycode)
    requires
        (EngineModel { conf, store: s }).wf(),
        s.fwd.dom() == Set::<Keycode>::empty(),
        s.clock < u64::MAX,
        !conf.simple.contains_key(k),
        forall|i: int| 0 <= i < conf.layers.len() ==> !(#[trigger] conf.layers[i]).keymap.contains_key(k),
    ensures
        step(conf, s, ev(k, KbctKeyStatus::Clicked)).1 == seq![ev(k, KbctKeyStatus::Clicked)],
        step(conf, step(conf, s, ev(k, KbctKeyStatus::Clicked)).0, ev(k, KbctKeyStatus::Released)).1
            == seq![ev(k, KbctKeyStatus::Released)],
{
    lemma_idle_round_trip(conf, s, k);
}

/// From idle, with `simple[k] = m` and no layer remapping `k`, clicking `k`
/// emits the click of `m` and releasing it the release of `m`.
pub proof fn lemma_simple_remap(conf: ConfigModel, s: StoreModel, k: Keycode, m: Keycode)
    requires
        (EngineModel { conf, store: s }).wf(),
        s.fwd.dom() == Set::<Keycode>::empty(),
        s.clock < u64::MAX,
        conf.simple.contains_key(k),
        conf.simple[k].code == m,
        forall|i: int| 0 <= i < conf.layers.len() ==> !(#[trigger] conf.layers[i]).keymap.contains_key(k),
    ensures
        step(conf, s, ev(k, KbctKeyStatus::Clicked)).1 == seq![ev(m, KbctKeyStatus::Clicked)],
        step(conf, step(conf, s, ev(k, KbctKeyStatus::Clicked)).0, ev(k, KbctKeyStatus::Released)).1
            == seq![ev(m, KbctKeyStatus::Released)],
{
    lemma_idle_round_trip(conf, s, k);
}


/// With one layer triggered by `t` alone that remaps `l`: after clicking `t`,
/// clicking `l`, releasing `l` and releasing `t`, a click of `t` is a bare
/// click again, with no synthetic event before it.
pub proof fn lemma_layer_reentry(conf: ConfigModel, s: StoreModel, t: Keycode, l: Keycode)
    requires
        (EngineModel { conf, store: s }).wf(),
        s.fwd.dom() == Set::<Keycode>::empty(),
        s.clock + 5 < u64::MAX,
        conf.layers.len() == 1,
        conf.layers[0].triggers == seq![t],
        conf.layers[0].keymap.contains_key(l),
        !conf.layers[0].keymap.contains_key(t),
        t != l,
        conf.layers[0].keymap[l].code != simple_target(conf, t),
    ensures
        ({
            let tm = simple_target(conf, t);
            let lm = conf.layers[0].keymap[l].code;
            let (s1, o1) = step(conf, s, ev(t, KbctKeyStatus::Clicked));
            let (s2, o2) = step(conf, s1, ev(l, KbctKeyStatus::Clicked));
            let (s3, o3) = step(conf, s2, ev(l, KbctKeyStatus::Released));
            let (s4, o4) = step(conf, s3, ev(t, KbctKeyStatus::Released));
            let (s5, o5) = step(conf, s4, ev(t, KbctKeyStatus::Clicked));
            &&& o1 == seq![ev(tm, KbctKeyStatus::Clicked)]
            &&& o2 == seq![ev(tm, KbctKeyStatus::ForceReleased), ev(lm, KbctKeyStatus::Clicked)]
            &&& o3 == seq![ev(lm, KbctKeyStatus::Released)]
            &&& o4 == Seq::<KbctEvent>::empty()
            &&& o5 == seq![ev(tm, KbctKeyStatus::Clicked)]
        }),
{
    let tm = simple_target(conf, t);
    let lm = conf.layers[0].keymap[l].code;
    let layer_t = conf.layers[0].triggers;
    // click t: nothing is held, so no layer is active
    assert(!is_candidate(s, layer_t)) by {
        assert(layer_t[0] == t);
    }
    assert(select_upto(s, conf.layers, 0) is None);
    assert(active_layer(s, conf.layers) is None);
    lemma_idle_round_trip(conf, s, t);
    let s1 = s.record(t, tm, KbctKeyStatus::Clicked);
    assert(step(conf, s, ev(t, KbctKeyStatus::Clicked)).0 == s1) by {
        lemma_idle_click(conf, s, t);
        assert(apply_synthetic(s, click_synthetic(conf, s, t)) == s);
    }
    assert(!s.rev.contains_key(tm)) by {
        if s.rev.contains_key(tm) {
            assert(s.fwd.contains_key(s.rev[tm][0]));
        }
    }
    crate::store::lemma_record_wf(s, t, tm, KbctKeyStatus::Clicked);
    // click l: the layer of t is active and remaps l; t is force-released
    assert(is_candidate(s1, layer_t)) by {
        assert forall|i: int| 0 <= i < layer_t.len() implies s1.fwd.contains_key(
            #[trigger] layer_t[i],
        ) by {
            assert(layer_t[i] == t);
        }
    }
    assert(select_upto(s1, conf.layers, 0) is None);
    assert(active_layer(s1, conf.layers) == Some(0int));
    assert(complex_target(conf, s1, l) == Some(lm));
    assert(active_triggers(conf, s1) == seq![t]);
    let e = crate::engine::SyntheticEvent {
        source: t,
        target: tm,
        status: KbctKeyStatus::ForceReleased,
    };
    assert(seq![t].drop_last() =~= Seq::<Keycode>::empty());
    assert(synthetic(s1, seq![t].drop_last(), true) == Seq::<crate::engine::SyntheticEvent>::empty());
    assert(seq![t].last() == t);
    assert(s1.fwd[t].status == KbctKeyStatus::Clicked);
    assert(synthetic(s1, seq![t], true) =~= seq![e]);
    assert(click_synthetic(conf, s1, l) =~= seq![e]);
    assert(seq![e].drop_last() =~= Seq::<crate::engine::SyntheticEvent>::empty());
    let s1a = s1.record(t, tm, KbctKeyStatus::ForceReleased);
    assert(apply_synthetic(s1, seq![e].drop_last()) == s1);
    assert(apply_synthetic(s1, seq![e]) == s1a);
    let s2 = s1a.record(l, lm, KbctKeyStatus::Clicked);
    assert(!s1.fwd.contains_key(l));
    assert(step(conf, s1, ev(l, KbctKeyStatus::Clicked)).0 == s2);
    assert(step(conf, s1, ev(l, KbctKeyStatus::Clicked)).1 =~= seq![
        ev(tm, KbctKeyStatus::ForceReleased),
        ev(lm, KbctKeyStatus::Clicked),
    ]);
    crate::store::lemma_record_wf(s1, t, tm, KbctKeyStatus::ForceReleased);
    assert(!s1a.rev.contains_key(lm)) by {
        if s1a.rev.contains_key(lm) {
            assert(s1a.fwd.contains_key(s1a.rev[lm][0]));
        }
    }
    crate::store::lemma_record_wf(s1a, l, lm, KbctKeyStatus::Clicked);
    // release l: l alone produces lm
    assert(s2.producer_count(lm) == 1);
    let s3 = s2.release(l);
    assert(step(conf, s2, ev(l, KbctKeyStatus::Released)).0 == s3);
    assert(step(conf, s2, ev(l, KbctKeyStatus::Released)).1 =~= seq![
        ev(lm, KbctKeyStatus::Released),
    ]);
    crate::store::lemma_release_wf(s2, l);
    // release t: it was force-released, so nothing is emitted
    assert(s3.fwd[t].status == KbctKeyStatus::ForceReleased);
    let s4 = s3.release(t);
    assert(step(conf, s3, ev(t, KbctKeyStatus::Released)).0 == s4);
    crate::store::lemma_release_wf(s3, t);
    assert(s4.fwd.dom() =~= Set::<Keycode>::empty());
    // click t again: idle once more
    lemma_idle_round_trip(conf, s4, t);
}

} // verus!

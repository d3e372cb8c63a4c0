//! Layers and the choice of the active layer.

use std::collections::HashMap;

use vstd::prelude::*;

use crate::event::Keycode;

verus! {

/// The logical key that a physical key is remapped to.
#[derive(Debug, Copy, Clone, PartialEq, Eq, Structural)]
pub struct KeyPress {
    pub code: Keycode,
}

/// A remap table: physical key to logical key.
pub type KeyMap = HashMap<Keycode, KeyPress>;

/// Whether the keys of `s` are in strictly ascending order.
pub open spec fn ascending(s: Seq<Keycode>) -> bool {
    forall|i: int, j: int| 0 <= i < j < s.len() ==> s[i] < s[j]
}

/// A layer as a value: its trigger keys in ascending order and its remaps.
pub ghost struct LayerModel {
    pub triggers: Seq<Keycode>,
    pub keymap: Map<Keycode, KeyPress>,
}

/// A remap table that applies while all of its trigger keys are held.
#[derive(Debug)]
pub struct Layer {
    modifiers: Vec<Keycode>,
    keymap: KeyMap,
}

impl View for Layer {
    type V = LayerModel;

    closed spec fn view(&self) -> LayerModel {
        LayerModel { triggers: self.modifiers@, keymap: self.keymap@ }
    }
}

/// The keys of `keys`, each once, in ascending order.
pub fn sorted_key_set(keys: &Vec<Keycode>) -> (r: Vec<Keycode>)
    ensures
        ascending(r@),
        forall|x: Keycode| r@.contains(x) <==> keys@.contains(x),
{
    let mut r: Vec<Keycode> = Vec::new();
    let mut i: usize = 0;
    while i < keys.len()
        invariant
            i <= keys@.len(),
            ascending(r@),
            forall|x: Keycode| r@.contains(x) <==> keys@.subrange(0, i as int).contains(x),
        decreases keys@.len() - i,
    {
        let x = keys[i];
        let mut p: usize = 0;
        while p < r.len() && r[p] < x
            invariant
                p <= r@.len(),
                forall|k: int| 0 <= k < p ==> r@[k] < x,
            decreases r@.len() - p,
        {
            p = p + 1;
        }
        let ghost before = r@;
        if p == r.len() || r[p] != x {
            r.insert(p, x);
            assert forall|a: int, b: int| 0 <= a < b < r@.len() implies r@[a] < r@[b] by {
                if b < p {
                    assert(r@[a] == before[a] && r@[b] == before[b]);
                } else if b == p {
                    assert(r@[a] == before[a]);
                } else if a < p {
                    assert(r@[a] == before[a] && r@[b] == before[b - 1]);
                    assert(before[p as int] > x);
                    if b - 1 > p {
                        assert(before[p as int] < before[b - 1]);
                    }
                } else if a == p {
                    assert(r@[b] == before[b - 1]);
                    if b - 1 > p {
                        assert(before[p as int] < before[b - 1]);
                    }
                } else {
                    assert(r@[a] == before[a - 1] && r@[b] == before[b - 1]);
                }
            }
            assert forall|y: Keycode| r@.contains(y) <==> before.contains(y) || y == x by {
                if r@.contains(y) {
                    let k = choose|k: int| 0 <= k < r@.len() && r@[k] == y;
                    if k < p {
                        assert(before[k] == y);
                    } else if k > p {
                        assert(before[k - 1] == y);
                    }
                }
                if before.contains(y) {
                    let k = choose|k: int| 0 <= k < before.len() && before[k] == y;
                    if k < p {
                        assert(r@[k] == y);
                    } else {
                        assert(r@[k + 1] == y);
                    }
                }
                if y == x {
                    assert(r@[p as int] == y);
                }
            }
        } else {
            assert(before[p as int] == x);
            assert(r@.contains(x));
        }
        assert(forall|y: Keycode| r@.contains(y) <==> before.contains(y) || y == x);
        assert forall|y: Keycode|
            keys@.subrange(0, i + 1).contains(y) <==> keys@.subrange(0, i as int).contains(y)
                || y == x by {
            let s1 = keys@.subrange(0, i + 1);
            let s0 = keys@.subrange(0, i as int);
            if s1.contains(y) {
                let k = choose|k: int| 0 <= k < s1.len() && s1[k] == y;
                if k < i {
                    assert(s0[k] == y);
                }
            }
            if s0.contains(y) {
                let k = choose|k: int| 0 <= k < s0.len() && s0[k] == y;
                assert(s1[k] == y);
            }
            if y == x {
                assert(s1[i as int] == y);
            }
        }
        let ghost old_i = i;
        i = i + 1;
        assert forall|y: Keycode| r@.contains(y) <==> keys@.subrange(0, i as int).contains(y) by {
            assert(r@.contains(y) <==> before.contains(y) || y == x);
            assert(keys@.subrange(0, i as int).contains(y) <==> keys@.subrange(0, old_i as int).contains(y)
                || y == x);
        }
    }
    assert(keys@.subrange(0, keys@.len() as int) =~= keys@);
    r
}

impl Layer {
    /// A layer triggered by the keys of `modifiers` (order and repeats do not
    /// matter) that applies `keymap`.
    pub fn new(modifiers: Vec<Keycode>, keymap: KeyMap) -> (r: Layer)
        ensures
            ascending(r@.triggers),
            forall|x: Keycode| r@.triggers.contains(x) <==> modifiers@.contains(x),
            r@.keymap == keymap@,
    {
        Layer { modifiers: sorted_key_set(&modifiers), keymap }
    }

    /// The trigger keys, in ascending order.
    pub fn modifiers(&self) -> (r: &Vec<Keycode>)
        ensures
            r@ == self@.triggers,
    {
        &self.modifiers
    }

    /// The remaps of the layer.
    pub fn keymap(&self) -> (r: &KeyMap)
        ensures
            r@ == self@.keymap,
    {
        &self.keymap
    }
}

} // verus!

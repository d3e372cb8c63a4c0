//! The configuration of one keyboard, by key names, and its translation into
//! an engine.

use std::collections::HashMap;

use vstd::prelude::*;
use vstd::std_specs::iter::IteratorSpec;
use vstd::string::StringExecFns;

use crate::engine::{ConfigModel, Kbct};
use crate::event::Keycode;
use crate::layers::{ascending, KeyMap, KeyPress, Layer};

verus! {

broadcast use vstd::std_specs::hash::group_hash_axioms;

/// A layer by key names: the modifiers that trigger it and its remaps.
#[derive(Debug, Clone, PartialEq, Eq)]
pub struct KbctComplexConf {
    pub modifiers: Vec<String>,
    pub keymap: Vec<(String, String)>,
}

/// The configuration of the keyboards named in `keyboards`: simple remaps
/// and layers, by key names. A later remap of a key overrides an earlier one.
#[derive(Debug, Clone, PartialEq, Eq)]
pub struct KbctConf {
    pub keyboards: Vec<String>,
    pub keymap: Option<Vec<(String, String)>>,
    pub layers: Option<Vec<KbctComplexConf>>,
}

/// An error of the engine's construction.
#[derive(Debug, Clone, PartialEq, Eq)]
pub enum KbctError {
    Error(String),
}

impl KbctConf {
    /// The names of the keyboards that the configuration applies to.
    pub fn keyboards(&self) -> (r: std::slice::Iter<'_, String>)
        ensures
            r.remaining() == self.keyboards@.as_ref(),
    {
        self.keyboards.as_slice().iter()
    }
}

/// The UTF-8 bytes of a name.
pub open spec fn name_bytes(s: String) -> Seq<u8> {
    vstd::utf8::encode_utf8(s@)
}

/// Whether `a` comes before `b` in byte order, looking from index `i` on.
pub open spec fn bytes_lt_from(a: Seq<u8>, b: Seq<u8>, i: int) -> bool
    decreases a.len() - i,
{
    if i < 0 || i >= a.len() {
        0 <= i < b.len()
    } else if i >= b.len() {
        false
    } else if a[i] != b[i] {
        a[i] < b[i]
    } else {
        bytes_lt_from(a, b, i + 1)
    }
}

/// Lexicographic byte order, the order of `String`.
pub open spec fn name_lt(a: String, b: String) -> bool {
    bytes_lt_from(name_bytes(a), name_bytes(b), 0)
}

/// Whether the names are in strictly ascending byte order.
pub open spec fn names_ascending(u: Seq<String>) -> bool {
    forall|i: int, j: int| 0 <= i < j < u.len() ==> name_lt(u[i], u[j])
}

/// Byte order is transitive.
proof fn lemma_lt_trans(a: Seq<u8>, b: Seq<u8>, c: Seq<u8>, i: int)
    requires
        0 <= i,
        bytes_lt_from(a, b, i),
        bytes_lt_from(b, c, i),
    ensures
        bytes_lt_from(a, c, i),
    decreases a.len() - i,
{
    if i < a.len() && i < b.len() && i < c.len() && a[i] == b[i] && b[i] == c[i] {
        lemma_lt_trans(a, b, c, i + 1);
    }
}

/// Of two byte strings that agree up to `i`, one comes first from `i` on,
/// unless they are equal.
proof fn lemma_lt_total(a: Seq<u8>, b: Seq<u8>, i: int)
    requires
        0 <= i <= a.len(),
        i <= b.len(),
        a.subrange(0, i) == b.subrange(0, i),
        !bytes_lt_from(a, b, i),
        !bytes_lt_from(b, a, i),
    ensures
        a == b,
    decreases a.len() - i,
{
    if i < a.len() && i < b.len() {
        assert(a[i] == b[i]);
        assert(a.subrange(0, i + 1) =~= a.subrange(0, i).push(a[i]));
        assert(b.subrange(0, i + 1) =~= b.subrange(0, i).push(b[i]));
        lemma_lt_total(a, b, i + 1);
    } else {
        assert(a.len() == i && b.len() == i);
        assert(a =~= a.subrange(0, i));
        assert(b =~= b.subrange(0, i));
    }
}

fn name_less(a: &String, b: &String) -> (r: bool)
    ensures
        r == name_lt(*a, *b),
{
    let x = a.as_str().as_bytes();
    let y = b.as_str().as_bytes();
    let mut i: usize = 0;
    while i < x.len() && i < y.len() && x[i] == y[i]
        invariant
            x@ == name_bytes(*a),
            y@ == name_bytes(*b),
            i <= x@.len(),
            i <= y@.len(),
            bytes_lt_from(x@, y@, 0) == bytes_lt_from(x@, y@, i as int),
        decreases x@.len() - i,
    {
        i = i + 1;
    }
    if i < x.len() && i < y.len() {
        x[i] < y[i]
    } else {
        i == x.len() && i < y.len()
    }
}

fn name_same(a: &String, b: &String) -> (r: bool)
    ensures
        r == (name_bytes(*a) == name_bytes(*b)),
{
    let x = a.as_str().as_bytes();
    let y = b.as_str().as_bytes();
    if x.len() != y.len() {
        return false;
    }
    let mut i: usize = 0;
    while i < x.len()
        invariant
            x@ == name_bytes(*a),
            y@ == name_bytes(*b),
            x@.len() == y@.len(),
            i <= x@.len(),
            x@.subrange(0, i as int) == y@.subrange(0, i as int),
        decreases x@.len() - i,
    {
        if x[i] != y[i] {
            return false;
        }
        assert(x@.subrange(0, i + 1) =~= x@.subrange(0, i as int).push(x@[i as int]));
        assert(y@.subrange(0, i + 1) =~= y@.subrange(0, i as int).push(y@[i as int]));
        i = i + 1;
    }
    assert(x@ =~= x@.subrange(0, i as int));
    assert(y@ =~= y@.subrange(0, i as int));
    true
}

/// Adds `x` to the ascending list of names `u`, unless a name with its bytes
/// is there already.
fn insert_name(u: &mut Vec<String>, x: String)
    requires
        names_ascending(old(u)@),
    ensures
        names_ascending(final(u)@),
        forall|y: String| #[trigger]
            final(u)@.contains(y) ==> old(u)@.contains(y) || y == x,
        old(u)@.len() <= final(u)@.len(),
        forall|k: int| 0 <= k < old(u)@.len() ==> final(u)@.contains(#[trigger] old(u)@[k]),
        exists|k: int| 0 <= k < final(u)@.len() && name_bytes(final(u)@[k]) == name_bytes(x),
{
    let mut p: usize = 0;
    while p < u.len() && name_less(&u[p], &x)
        invariant
            p <= u@.len(),
            forall|k: int| 0 <= k < p ==> name_lt(#[trigger] u@[k], x),
        decreases u@.len() - p,
    {
        p = p + 1;
    }
    if p < u.len() && name_same(&u[p], &x) {
        assert(name_bytes(u@[p as int]) == name_bytes(x));
        assert(forall|k: int| 0 <= k < u@.len() ==> u@.contains(#[trigger] u@[k]));
        return;
    }
    let ghost before = u@;
    proof {
        if p < before.len() {
            assert(!name_lt(before[p as int], x));
            assert(name_bytes(before[p as int]) != name_bytes(x));
            if !name_lt(x, before[p as int]) {
                assert(name_bytes(x).subrange(0, 0) =~= name_bytes(before[p as int]).subrange(0, 0));
                lemma_lt_total(name_bytes(x), name_bytes(before[p as int]), 0);
            }
        }
    }
    u.insert(p, x);
    assert(u@[p as int] == x);
    assert forall|a: int, b: int| 0 <= a < b < u@.len() implies name_lt(u@[a], u@[b]) by {
        if b < p {
            assert(u@[a] == before[a] && u@[b] == before[b]);
        } else if b == p {
            assert(u@[a] == before[a]);
        } else if a < p {
            assert(u@[a] == before[a] && u@[b] == before[b - 1]);
        } else if a == p {
            assert(u@[b] == before[b - 1]);
            if b - 1 > p {
                assert(name_lt(before[p as int], before[b - 1]));
                lemma_lt_trans(name_bytes(x), name_bytes(before[p as int]), name_bytes(before[b - 1]), 0);
            }
        } else {
            assert(u@[a] == before[a - 1] && u@[b] == before[b - 1]);
        }
    }
    assert forall|y: String| #[trigger] u@.contains(y) implies before.contains(y) || y == x by {
        let k = choose|k: int| 0 <= k < u@.len() && u@[k] == y;
        if k < p {
            assert(before[k] == y);
        } else if k > p {
            assert(before[k - 1] == y);
        }
    }
    assert forall|k: int| 0 <= k < before.len() implies u@.contains(#[trigger] before[k]) by {
        if k < p {
            assert(u@[k] == before[k]);
        } else {
            assert(u@[k + 1] == before[k]);
        }
    }
}


/// What the vocabulary `f` answers for the name `n`.
pub open spec fn code_of<F: Fn(&String) -> Option<Keycode>>(f: F, n: String) -> Option<Keycode> {
    choose|r: Option<Keycode>| f.ensures((&n,), r)
}

/// Whether `f` answers every name, and each name in one way only.
pub open spec fn is_vocabulary<F: Fn(&String) -> Option<Keycode>>(f: F) -> bool {
    &&& forall|n: &String| #[trigger] f.requires((n,))
    &&& forall|n: &String, a: Option<Keycode>, b: Option<Keycode>|
        #[trigger] f.ensures((n,), a) && #[trigger] f.ensures((n,), b) ==> a == b
}

/// A vocabulary answers a name the way one call showed.
proof fn lemma_code_of<F: Fn(&String) -> Option<Keycode>>(f: F, n: String, c: Option<Keycode>)
    requires
        is_vocabulary(f),
        f.ensures((&n,), c),
    ensures
        code_of(f, n) == c,
{
}

fn lookup<F: Fn(&String) -> Option<Keycode>>(f: &F, n: &String) -> (r: Option<Keycode>)
    requires
        is_vocabulary(*f),
    ensures
        r == code_of(*f, *n),
{
    let r = f(n);
    proof {
        lemma_code_of(*f, *n, r);
    }
    r
}

/// Whether a name occurs in a list of remaps, on either side.
pub open spec fn pairs_mention(p: Seq<(String, String)>, n: String) -> bool {
    exists|i: int| 0 <= i < p.len() && (#[trigger] p[i].0 == n || p[i].1 == n)
}

/// Whether a name occurs in a layer.
pub open spec fn layer_mentions(l: KbctComplexConf, n: String) -> bool {
    l.modifiers@.contains(n) || pairs_mention(l.keymap@, n)
}

/// The simple remaps of a configuration; none if absent.
pub open spec fn simple_pairs(conf: KbctConf) -> Seq<(String, String)> {
    match conf.keymap {
        Some(m) => m@,
        None => Seq::empty(),
    }
}

/// The layers of a configuration; none if absent.
pub open spec fn layer_confs(conf: KbctConf) -> Seq<KbctComplexConf> {
    match conf.layers {
        Some(l) => l@,
        None => Seq::empty(),
    }
}

/// Whether a name occurs anywhere in a configuration.
pub open spec fn mentions(conf: KbctConf, n: String) -> bool {
    pairs_mention(simple_pairs(conf), n) || exists|j: int|
        0 <= j < layer_confs(conf).len() && layer_mentions(#[trigger] layer_confs(conf)[j], n)
}

/// Whether a name of the configuration is unknown to the vocabulary.
pub open spec fn is_unknown<F: Fn(&String) -> Option<Keycode>>(conf: KbctConf, f: F, n: String) -> bool {
    mentions(conf, n) && code_of(f, n) is None
}

/// Whether `u` holds a name with the bytes of `n`.
pub open spec fn covers(u: Seq<String>, n: String) -> bool {
    exists|k: int| 0 <= k < u.len() && name_bytes(#[trigger] u[k]) == name_bytes(n)
}

fn push_names(r: &mut Vec<String>, v: &Vec<String>)
    ensures
        forall|n: String| #[trigger] final(r)@.contains(n) <==> old(r)@.contains(n) || v@.contains(n),
{
    let mut i: usize = 0;
    while i < v.len()
        invariant
            i <= v@.len(),
            forall|n: String| #[trigger]
                r@.contains(n) <==> old(r)@.contains(n) || v@.subrange(0, i as int).contains(n),
        decreases v@.len() - i,
    {
        let ghost before = r@;
        r.push(v[i].clone());
        assert forall|n: String| #[trigger]
            r@.contains(n) <==> old(r)@.contains(n) || v@.subrange(0, i + 1).contains(n) by {
            let s1 = v@.subrange(0, i + 1);
            let s0 = v@.subrange(0, i as int);
            assert(r@ == before.push(v@[i as int]));
            if r@.contains(n) {
                let k = choose|k: int| 0 <= k < r@.len() && r@[k] == n;
                if k < before.len() {
                    assert(before[k] == n);
                    assert(before.contains(n));
                    if s0.contains(n) {
                        let q = choose|q: int| 0 <= q < s0.len() && s0[q] == n;
                        assert(s1[q] == n);
                    }
                } else {
                    assert(s1[i as int] == n);
                }
            }
            if s1.contains(n) {
                let k = choose|k: int| 0 <= k < s1.len() && s1[k] == n;
                if k < i {
                    assert(s0[k] == n);
                    assert(s0.contains(n));
                    assert(before.contains(n));
                    let m = choose|m: int| 0 <= m < before.len() && before[m] == n;
                    assert(r@[m] == n);
                } else {
                    assert(r@[before.len() as int] == n);
                }
            }
            if old(r)@.contains(n) {
                assert(before.contains(n));
                let m = choose|m: int| 0 <= m < before.len() && before[m] == n;
                assert(r@[m] == n);
            }
            if s0.contains(n) {
                let k = choose|k: int| 0 <= k < s0.len() && s0[k] == n;
                assert(s1[k] == n);
                assert(before.contains(n));
                let m = choose|m: int| 0 <= m < before.len() && before[m] == n;
                assert(r@[m] == n);
            }
        }
        i = i + 1;
    }
    assert(v@.subrange(0, v@.len() as int) =~= v@);
}

fn push_pair_names(r: &mut Vec<String>, p: &Vec<(String, String)>)
    ensures
        forall|n: String| #[trigger] final(r)@.contains(n) <==> old(r)@.contains(n) || pairs_mention(p@, n),
{
    let mut i: usize = 0;
    while i < p.len()
        invariant
            i <= p@.len(),
            forall|n: String| #[trigger]
                r@.contains(n) <==> old(r)@.contains(n) || pairs_mention(p@.subrange(0, i as int), n),
        decreases p@.len() - i,
    {
        let ghost before = r@;
        let ghost a = p@[i as int].0;
        let ghost b = p@[i as int].1;
        r.push(p[i].0.clone());
        r.push(p[i].1.clone());
        assert(r@ == before.push(a).push(b));
        assert forall|n: String| #[trigger]
            r@.contains(n) <==> old(r)@.contains(n) || pairs_mention(p@.subrange(0, i + 1), n) by {
            let s1 = p@.subrange(0, i + 1);
            let s0 = p@.subrange(0, i as int);
            if r@.contains(n) {
                let k = choose|k: int| 0 <= k < r@.len() && r@[k] == n;
                if k < before.len() {
                    assert(before[k] == n);
                    assert(before.contains(n));
                    if pairs_mention(s0, n) {
                        let m = choose|m: int| 0 <= m < s0.len() && (#[trigger] s0[m].0 == n || s0[m].1 == n);
                        assert(s1[m] == s0[m]);
                    }
                } else {
                    assert(s1[i as int].0 == n || s1[i as int].1 == n);
                }
            }
            if pairs_mention(s1, n) {
                let m = choose|m: int| 0 <= m < s1.len() && (#[trigger] s1[m].0 == n || s1[m].1 == n);
                if m < i {
                    assert(s0[m] == s1[m]);
                    assert(pairs_mention(s0, n));
                    assert(before.contains(n));
                    let q = choose|q: int| 0 <= q < before.len() && before[q] == n;
                    assert(r@[q] == n);
                } else if s1[m].0 == n {
                    assert(r@[before.len() as int] == n);
                } else {
                    assert(r@[before.len() as int + 1] == n);
                }
            }
            if old(r)@.contains(n) {
                assert(before.contains(n));
                let q = choose|q: int| 0 <= q < before.len() && before[q] == n;
                assert(r@[q] == n);
            }
        }
        i = i + 1;
    }
    assert(p@.subrange(0, p@.len() as int) =~= p@);
}

/// Every name of the configuration, with repeats.
fn gather_names(conf: &KbctConf) -> (r: Vec<String>)
    ensures
        forall|n: String| #[trigger] r@.contains(n) <==> mentions(*conf, n),
{
    let mut r: Vec<String> = Vec::new();
    match &conf.keymap {
        Some(m) => push_pair_names(&mut r, m),
        None => {},
    }
    assert(forall|n: String| #[trigger] r@.contains(n) <==> pairs_mention(simple_pairs(*conf), n));
    match &conf.layers {
        Some(ls) => {
            let mut j: usize = 0;
            while j < ls.len()
                invariant
                    j <= ls@.len(),
                    ls@ == layer_confs(*conf),
                    forall|n: String| #[trigger]
                        r@.contains(n) <==> pairs_mention(simple_pairs(*conf), n) || exists|k: int|
                            0 <= k < j && layer_mentions(#[trigger] ls@[k], n),
                decreases ls@.len() - j,
            {
                let ghost before = r@;
                push_names(&mut r, &ls[j].modifiers);
                push_pair_names(&mut r, &ls[j].keymap);
                assert forall|n: String| #[trigger]
                    r@.contains(n) <==> pairs_mention(simple_pairs(*conf), n) || exists|k: int|
                        0 <= k < j + 1 && layer_mentions(#[trigger] ls@[k], n) by {
                    if layer_mentions(ls@[j as int], n) {
                        assert(r@.contains(n));
                    }
                    if exists|k: int| 0 <= k < j + 1 && layer_mentions(#[trigger] ls@[k], n) {
                        let k = choose|k: int| 0 <= k < j + 1 && layer_mentions(#[trigger] ls@[k], n);
                        if k < j {
                            assert(before.contains(n));
                        }
                    }
                    if before.contains(n) {
                        assert(r@.contains(n));
                    }
                }
                j = j + 1;
            }
        },
        None => {},
    }
    r
}

/// The names of the configuration that the vocabulary does not know, each
/// once, in ascending byte order.
pub fn unknown_names<F: Fn(&String) -> Option<Keycode>>(conf: &KbctConf, key_code: &F) -> (u: Vec<
    String,
>)
    requires
        is_vocabulary(*key_code),
    ensures
        names_ascending(u@),
        forall|x: String| #[trigger] u@.contains(x) ==> is_unknown(*conf, *key_code, x),
        forall|n: String| is_unknown(*conf, *key_code, n) ==> #[trigger] covers(u@, n),
{
    let names = gather_names(conf);
    let mut u: Vec<String> = Vec::new();
    let mut i: usize = 0;
    while i < names.len()
        invariant
            i <= names@.len(),
            is_vocabulary(*key_code),
            forall|n: String| #[trigger] names@.contains(n) <==> mentions(*conf, n),
            names_ascending(u@),
            forall|x: String| #[trigger] u@.contains(x) ==> is_unknown(*conf, *key_code, x),
            forall|k: int|
                0 <= k < i && code_of(*key_code, names@[k]) is None ==> #[trigger] covers(u@, names@[k]),
        decreases names@.len() - i,
    {
        let n = &names[i];
        if lookup(key_code, n).is_none() {
            let ghost before = u@;
            assert(names@.contains(names@[i as int]));
            insert_name(&mut u, n.clone());
            assert forall|k: int|
                0 <= k < i + 1 && code_of(*key_code, names@[k]) is None implies #[trigger] covers(u@, names@[k]) by {
                if k < i {
                    assert(covers(before, names@[k]));
                    let q = choose|q: int| 0 <= q < before.len() && name_bytes(#[trigger] before[q]) == name_bytes(names@[k]);
                    assert(u@.contains(before[q]));
                    let w = choose|w: int| 0 <= w < u@.len() && u@[w] == before[q];
                    assert(name_bytes(u@[w]) == name_bytes(names@[k]));
                }
            }
        }
        i = i + 1;
    }
    assert forall|n: String| is_unknown(*conf, *key_code, n) implies #[trigger] covers(u@, n) by {
        assert(names@.contains(n));
        let k = choose|k: int| 0 <= k < names@.len() && names@[k] == n;
        assert(covers(u@, names@[k]));
    }
    u
}


/// A name as `{:?}` writes it: quoted, with special characters escaped.
pub uninterp spec fn debug_quoted(s: Seq<char>) -> Seq<char>;

/// Relies on the `Debug` impl of `str`: the quoted, escaped form of a name.
#[verifier::external_body]
fn quoted(s: &String) -> (r: String)
    ensures
        r@ == debug_quoted(s@),
{
    format!("{:?}", s)
}

/// The parts joined by `", "`.
pub open spec fn joined(q: Seq<Seq<char>>) -> Seq<char>
    decreases q.len(),
{
    if q.len() == 0 {
        Seq::empty()
    } else if q.len() == 1 {
        q[0]
    } else {
        joined(q.drop_last()) + ", "@ + q.last()
    }
}

/// The message of the error on unknown names.
pub open spec fn unknown_keys_message(u: Seq<String>) -> Seq<char> {
    "Configuration contains unknown keys: {"@ + joined(u.map_values(|s: String| debug_quoted(s@)))
        + "}"@
}

fn unknown_keys_error(u: &Vec<String>) -> (r: String)
    ensures
        r@ == unknown_keys_message(u@),
{
    let mut body = String::new();
    let mut i: usize = 0;
    while i < u.len()
        invariant
            i <= u@.len(),
            body@ == joined(u@.subrange(0, i as int).map_values(|s: String| debug_quoted(s@))),
        decreases u@.len() - i,
    {
        let ghost q0 = u@.subrange(0, i as int).map_values(|s: String| debug_quoted(s@));
        let ghost q1 = u@.subrange(0, i + 1).map_values(|s: String| debug_quoted(s@));
        assert(q1.drop_last() =~= q0);
        if i > 0 {
            body.append(", ");
        }
        let q = quoted(&u[i]);
        body.append(q.as_str());
        proof {
            if i == 0 {
                assert(body@ =~= q1[0]);
            } else {
                assert(body@ =~= joined(q0) + ", "@ + q1.last());
            }
        }
        i = i + 1;
    }
    assert(u@.subrange(0, u@.len() as int) =~= u@);
    let mut msg = String::from_str("Configuration contains unknown keys: {");
    msg.append(body.as_str());
    msg.append("}");
    msg
}

/// The remap table of a list of remaps by name; a later remap of a key wins.
pub open spec fn pairs_map<F: Fn(&String) -> Option<Keycode>>(f: F, p: Seq<(String, String)>) -> Map<
    Keycode,
    KeyPress,
>
    decreases p.len(),
{
    if p.len() == 0 {
        Map::empty()
    } else {
        pairs_map(f, p.drop_last()).insert(
            code_of(f, p.last().0)->Some_0,
            KeyPress { code: code_of(f, p.last().1)->Some_0 },
        )
    }
}

/// The codes of the names, which the vocabulary all knows.
pub open spec fn codes_of<F: Fn(&String) -> Option<Keycode>>(f: F, v: Seq<String>) -> Seq<Keycode> {
    v.map_values(|n: String| code_of(f, n)->Some_0)
}

fn build_keymap<F: Fn(&String) -> Option<Keycode>>(f: &F, p: &Vec<(String, String)>) -> (r: KeyMap)
    requires
        is_vocabulary(*f),
        forall|i: int|
            0 <= i < p@.len() ==> code_of(*f, (#[trigger] p@[i]).0) is Some && code_of(*f, p@[i].1) is Some,
    ensures
        r@ == pairs_map(*f, p@),
{
    let mut r: KeyMap = HashMap::new();
    let mut i: usize = 0;
    while i < p.len()
        invariant
            i <= p@.len(),
            is_vocabulary(*f),
            forall|i: int|
                0 <= i < p@.len() ==> code_of(*f, (#[trigger] p@[i]).0) is Some && code_of(*f, p@[i].1) is Some,
            r@ == pairs_map(*f, p@.subrange(0, i as int)),
        decreases p@.len() - i,
    {
        let k = match lookup(f, &p[i].0) {
            Some(c) => c,
            None => 0,
        };
        let v = match lookup(f, &p[i].1) {
            Some(c) => c,
            None => 0,
        };
        assert(p@.subrange(0, i + 1).drop_last() =~= p@.subrange(0, i as int));
        let ghost before = r@;
        r.insert(k, KeyPress { code: v });
        proof {
            let s1 = p@.subrange(0, i + 1);
            assert(s1.last() == p@[i as int]);
            assert(code_of(*f, p@[i as int].0) is Some && code_of(*f, p@[i as int].1) is Some);
            assert(r@ == pairs_map(*f, s1));
        }
        i = i + 1;
    }
    assert(p@.subrange(0, p@.len() as int) =~= p@);
    r
}


fn modifier_codes<F: Fn(&String) -> Option<Keycode>>(f: &F, v: &Vec<String>) -> (r: Vec<Keycode>)
    requires
        is_vocabulary(*f),
        forall|i: int| 0 <= i < v@.len() ==> code_of(*f, #[trigger] v@[i]) is Some,
    ensures
        r@ == codes_of(*f, v@),
{
    let mut r: Vec<Keycode> = Vec::new();
    let mut i: usize = 0;
    while i < v.len()
        invariant
            i <= v@.len(),
            is_vocabulary(*f),
            forall|i: int| 0 <= i < v@.len() ==> code_of(*f, #[trigger] v@[i]) is Some,
            r@ == codes_of(*f, v@.subrange(0, i as int)),
        decreases v@.len() - i,
    {
        let c = match lookup(f, &v[i]) {
            Some(c) => c,
            None => 0,
        };
        r.push(c);
        assert(r@ =~= codes_of(*f, v@.subrange(0, i + 1)));
        i = i + 1;
    }
    assert(v@.subrange(0, v@.len() as int) =~= v@);
    r
}

/// Whether `c` is the translation of `conf` by the vocabulary `f`: the simple
/// table and, layer by layer, the trigger keys in ascending order and the
/// remaps.
pub open spec fn translates<F: Fn(&String) -> Option<Keycode>>(conf: KbctConf, f: F, c: ConfigModel) -> bool {
    &&& c.simple == pairs_map(f, simple_pairs(conf))
    &&& c.layers.len() == layer_confs(conf).len()
    &&& forall|j: int|
        0 <= j < c.layers.len() ==> {
            &&& ascending(#[trigger] c.layers[j].triggers)
            &&& forall|x: Keycode|
                c.layers[j].triggers.contains(x) <==> codes_of(f, layer_confs(conf)[j].modifiers@).contains(x)
            &&& c.layers[j].keymap == pairs_map(f, layer_confs(conf)[j].keymap@)
        }
}

impl Kbct {
    /// The engine of a configuration, with key names translated by
    /// `key_code`; no key is held. Fails, naming them, where the vocabulary
    /// does not know some of the configuration's names.
    pub fn new<F: Fn(&String) -> Option<Keycode>>(conf: KbctConf, key_code: F) -> (r: Result<
        Kbct,
        KbctError,
    >)
        requires
            is_vocabulary(key_code),
        ensures
            r is Ok <==> forall|n: String| !#[trigger] is_unknown(conf, key_code, n),
            r matches Err(KbctError::Error(msg)) ==> exists|u: Seq<String>|
                {
                    &&& names_ascending(u)
                    &&& forall|x: String| #[trigger] u.contains(x) ==> is_unknown(conf, key_code, x)
                    &&& forall|n: String| is_unknown(conf, key_code, n) ==> #[trigger] covers(u, n)
                    &&& msg@ == unknown_keys_message(u)
                },
            r matches Ok(k) ==> {
                &&& k@.wf()
                &&& translates(conf, key_code, k@.conf)
                &&& k@.store.fwd.dom() == Set::<Keycode>::empty()
                &&& k@.store.clock == 0
            },
    {
        let u = unknown_names(&conf, &key_code);
        if u.len() > 0 {
            assert(u@.contains(u@[0]));
            return Err(KbctError::Error(unknown_keys_error(&u)));
        }
        assert forall|n: String| !#[trigger] is_unknown(conf, key_code, n) by {
            if is_unknown(conf, key_code, n) {
                assert(covers(u@, n));
            }
        }
        let simple = match &conf.keymap {
            Some(m) => {
                assert forall|i: int| 0 <= i < m@.len() implies code_of(key_code, (#[trigger] m@[i]).0)
                    is Some && code_of(key_code, m@[i].1) is Some by {
                    assert(pairs_mention(simple_pairs(conf), m@[i].0));
                    assert(pairs_mention(simple_pairs(conf), m@[i].1));
                    assert(!is_unknown(conf, key_code, m@[i].0));
                    assert(!is_unknown(conf, key_code, m@[i].1));
                }
                build_keymap(&key_code, m)
            },
            None => {
                let e: KeyMap = HashMap::new();
                assert(e@ == pairs_map(key_code, simple_pairs(conf)));
                e
            },
        };
        let mut layers: Vec<Layer> = Vec::new();
        match &conf.layers {
            Some(ls) => {
                let mut j: usize = 0;
                while j < ls.len()
                    invariant
                        j <= ls@.len(),
                        ls@ == layer_confs(conf),
                        is_vocabulary(key_code),
                        forall|n: String| !#[trigger] is_unknown(conf, key_code, n),
                        layers@.len() == j,
                        forall|k: int|
                            0 <= k < j ==> {
                                &&& ascending((#[trigger] layers@[k])@.triggers)
                                &&& forall|x: Keycode|
                                    layers@[k]@.triggers.contains(x) <==> codes_of(
                                        key_code,
                                        ls@[k].modifiers@,
                                    ).contains(x)
                                &&& layers@[k]@.keymap == pairs_map(key_code, ls@[k].keymap@)
                            },
                    decreases ls@.len() - j,
                {
                    let l = &ls[j];
                    assert forall|i: int| 0 <= i < l.modifiers@.len() implies code_of(
                        key_code,
                        #[trigger] l.modifiers@[i],
                    ) is Some by {
                        assert(l.modifiers@.contains(l.modifiers@[i]));
                        assert(layer_mentions(ls@[j as int], l.modifiers@[i]));
                        assert(!is_unknown(conf, key_code, l.modifiers@[i]));
                    }
                    assert forall|i: int| 0 <= i < l.keymap@.len() implies code_of(
                        key_code,
                        (#[trigger] l.keymap@[i]).0,
                    ) is Some && code_of(key_code, l.keymap@[i].1) is Some by {
                        assert(layer_mentions(ls@[j as int], l.keymap@[i].0));
                        assert(layer_mentions(ls@[j as int], l.keymap@[i].1));
                        assert(!is_unknown(conf, key_code, l.keymap@[i].0));
                        assert(!is_unknown(conf, key_code, l.keymap@[i].1));
                    }
                    let codes = modifier_codes(&key_code, &l.modifiers);
                    let km = build_keymap(&key_code, &l.keymap);
                    let layer = Layer::new(codes, km);
                    layers.push(layer);
                    j = j + 1;
                }
            },
            None => {},
        }
        let k = Kbct::new_test(simple, layers);
        assert(translates(conf, key_code, k@.conf));
        Ok(k)
    }
}

} // verus!

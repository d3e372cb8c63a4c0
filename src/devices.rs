//! Which present input devices to capture for a configuration.

use vstd::prelude::*;

verus! {

/// The path of the first present device named `name`, if any; names and
/// paths compare by their characters.
pub open spec fn path_of(present: Seq<(String, String)>, name: String) -> Option<String>
    decreases present.len(),
{
    if present.len() == 0 {
        None
    } else if present[0].0@ == name@ {
        Some(present[0].1)
    } else {
        path_of(present.drop_first(), name)
    }
}

/// The devices to capture for the keyboard names `keyboards`, in their order:
/// each present device that one of them names, unless its path is captured
/// already or was chosen for an earlier name.
pub open spec fn capture_plan(
    keyboards: Seq<String>,
    present: Seq<(String, String)>,
    captured: Seq<String>,
) -> Seq<(String, String)>
    decreases keyboards.len(),
{
    if keyboards.len() == 0 {
        Seq::empty()
    } else {
        let prev = capture_plan(keyboards.drop_last(), present, captured);
        let name = keyboards.last();
        match path_of(present, name) {
            Some(p) => if captured.map_values(|c: String| c@).contains(p@) || prev.map_values(
                |e: (String, String)| e.1@,
            ).contains(p@) {
                prev
            } else {
                prev.push((name, p))
            },
            None => prev,
        }
    }
}

fn find_path(present: &Vec<(String, String)>, name: &String) -> (r: Option<String>)
    ensures
        r == path_of(present@, *name),
{
    let mut i: usize = 0;
    assert(present@.subrange(0, present@.len() as int) =~= present@);
    while i < present.len()
        invariant
            i <= present@.len(),
            path_of(present@, *name) == path_of(present@.subrange(i as int, present@.len() as int), *name),
        decreases present@.len() - i,
    {
        let ghost rest = present@.subrange(i as int, present@.len() as int);
        assert(rest.drop_first() =~= present@.subrange(i + 1, present@.len() as int));
        assert(rest[0] == present@[i as int]);
        if present[i].0 == *name {
            return Some(present[i].1.clone());
        }
        i = i + 1;
    }
    None
}

fn contains_name(v: &Vec<String>, x: &String) -> (r: bool)
    ensures
        r == v@.map_values(|c: String| c@).contains(x@),
{
    let ghost names = v@.map_values(|c: String| c@);
    let mut i: usize = 0;
    while i < v.len()
        invariant
            i <= v@.len(),
            names == v@.map_values(|c: String| c@),
            forall|k: int| 0 <= k < i ==> names[k] != x@,
        decreases v@.len() - i,
    {
        if v[i] == *x {
            assert(names[i as int] == x@);
            return true;
        }
        i = i + 1;
    }
    false
}

fn chosen_path(v: &Vec<(String, String)>, x: &String) -> (r: bool)
    ensures
        r == v@.map_values(|e: (String, String)| e.1@).contains(x@),
{
    let ghost paths = v@.map_values(|e: (String, String)| e.1@);
    let mut i: usize = 0;
    while i < v.len()
        invariant
            i <= v@.len(),
            paths == v@.map_values(|e: (String, String)| e.1@),
            forall|k: int| 0 <= k < i ==> paths[k] != x@,
        decreases v@.len() - i,
    {
        if v[i].1 == *x {
            assert(paths[i as int] == x@);
            return true;
        }
        i = i + 1;
    }
    false
}

/// The devices to capture for the keyboard names `keyboards`, given the
/// present devices as (name, path) and the paths captured already.
pub fn devices_to_capture(
    keyboards: &Vec<String>,
    present: &Vec<(String, String)>,
    captured: &Vec<String>,
) -> (r: Vec<(String, String)>)
    ensures
        r@ == capture_plan(keyboards@, present@, captured@),
{
    let mut r: Vec<(String, String)> = Vec::new();
    let mut i: usize = 0;
    while i < keyboards.len()
        invariant
            i <= keyboards@.len(),
            r@ == capture_plan(keyboards@.subrange(0, i as int), present@, captured@),
        decreases keyboards@.len() - i,
    {
        let ghost ks = keyboards@.subrange(0, i + 1);
        assert(ks.drop_last() =~= keyboards@.subrange(0, i as int));
        assert(ks.last() == keyboards@[i as int]);
        match find_path(present, &keyboards[i]) {
            Some(p) => {
                if !contains_name(captured, &p) && !chosen_path(&r, &p) {
                    r.push((keyboards[i].clone(), p));
                }
            },
            None => {},
        }
        i = i + 1;
    }
    assert(keyboards@.subrange(0, keyboards@.len() as int) =~= keyboards@);
    r
}

} // verus!

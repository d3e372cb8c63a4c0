use kbct::config::{KbctComplexConf, KbctConf, KbctError};
use kbct::engine::Kbct;
use kbct::event::{
    kbct_from_uinput_event, map_status_from_kbct, map_status_from_linux, KbctEvent, KbctKeyStatus, KeyEvent, KeyMapEvent,
};
use kbct::event::KbctKeyStatus::{Clicked, ForceReleased, Pressed, Released};
use kbct::layers::{KeyPress, Layer};
use std::collections::HashMap;

fn key(s: &str) -> i32 {
    s.as_bytes()[0] as i32
}

fn ev(s: &str, st: KbctKeyStatus) -> KbctEvent {
    Kbct::make_ev(key(s), st)
}

fn keymap(pairs: &[(&str, &str)]) -> HashMap<i32, KeyPress> {
    pairs.iter().map(|(a, b)| (key(a), KeyPress { code: key(b) })).collect()
}

fn engine(simple: &[(&str, &str)], layers: Vec<(Vec<&str>, Vec<(&str, &str)>)>) -> Kbct {
    Kbct::new_test(
        keymap(simple),
        layers
            .into_iter()
            .map(|(m, k)| Layer::new(m.into_iter().map(key).collect(), keymap(&k)))
            .collect(),
    )
}

fn conf_of_spec() -> Kbct {
    let s = |v: &[(&str, &str)]| v.iter().map(|(a, b)| (a.to_string(), b.to_string())).collect();
    Kbct::new(
        KbctConf {
            keyboards: vec!["kb".to_string()],
            keymap: Some(s(&[("3", "2")])),
            layers: Some(vec![
                KbctComplexConf { modifiers: vec!["A".to_string(), "B".to_string()], keymap: s(&[("1", "2"), ("2", "1")]) },
                KbctComplexConf { modifiers: vec!["A".to_string(), "C".to_string()], keymap: s(&[("2", "3")]) },
                KbctComplexConf { modifiers: vec!["A".to_string()], keymap: s(&[("1", "3")]) },
            ]),
        },
        |n: &String| {
            let b = n.as_bytes();
            if b.len() == 1 && (b[0].is_ascii_uppercase() || b[0].is_ascii_digit()) {
                Some(b[0] as i32)
            } else {
                None
            }
        },
    )
    .unwrap()
}

#[test]
fn idle_round_trip_of_unmapped_key() {
    let mut k = engine(&[], vec![]);
    assert_eq!(vec![ev("Q", Clicked)], k.map_event(ev("Q", Clicked)));
    assert_eq!(vec![ev("Q", Released)], k.map_event(ev("Q", Released)));
    assert_eq!(0, k.key_states().len());
}

#[test]
fn simple_remap_clicks_and_releases_target() {
    let mut k = engine(&[("K", "M")], vec![(vec!["A"], vec![("1", "2")])]);
    assert_eq!(vec![ev("M", Clicked)], k.map_event(ev("K", Clicked)));
    assert_eq!(vec![ev("M", Pressed)], k.map_event(ev("K", Pressed)));
    assert_eq!(vec![ev("M", Released)], k.map_event(ev("K", Released)));
}

#[test]
fn layer_reentry_gives_bare_trigger_click() {
    let mut k = engine(&[("T", "U")], vec![(vec!["T"], vec![("L", "M")])]);
    assert_eq!(vec![ev("U", Clicked)], k.map_event(ev("T", Clicked)));
    assert_eq!(vec![ev("U", ForceReleased), ev("M", Clicked)], k.map_event(ev("L", Clicked)));
    assert_eq!(vec![ev("M", Released)], k.map_event(ev("L", Released)));
    assert_eq!(Vec::<KbctEvent>::new(), k.map_event(ev("T", Pressed)));
    assert_eq!(Vec::<KbctEvent>::new(), k.map_event(ev("T", Released)));
    assert_eq!(vec![ev("U", Clicked)], k.map_event(ev("T", Clicked)));
}

#[test]
fn co_producers_release_once() {
    let mut k = engine(&[("X", "M"), ("Y", "M")], vec![]);
    assert_eq!(vec![ev("M", Clicked)], k.map_event(ev("X", Clicked)));
    assert_eq!(vec![ev("M", Clicked)], k.map_event(ev("Y", Clicked)));
    assert_eq!(2, k.key_states().producer_count(key("M")));
    assert_eq!(Some(key("Y")), k.key_states().most_recent_source(key("M")));
    assert_eq!(Vec::<KbctEvent>::new(), k.map_event(ev("X", Released)));
    assert_eq!(1, k.key_states().producer_count(key("M")));
    assert_eq!(Some(key("Y")), k.key_states().most_recent_source(key("M")));
    assert_eq!(vec![ev("M", Released)], k.map_event(ev("Y", Released)));
    assert_eq!(0, k.key_states().producer_count(key("M")));
    assert_eq!(None, k.key_states().most_recent_source(key("M")));
}

#[test]
fn later_completed_layer_wins_among_equal_sizes() {
    let mut k = conf_of_spec();
    k.map_event(ev("A", Clicked));
    k.map_event(ev("C", Clicked));
    k.map_event(ev("B", Clicked));
    assert_eq!(&vec![key("A"), key("B")], k.get_active_complex_modifiers().unwrap().modifiers());
    k.map_event(ev("B", Released));
    assert_eq!(&vec![key("A"), key("C")], k.get_active_complex_modifiers().unwrap().modifiers());
}

#[test]
fn larger_layer_wins() {
    let mut k = conf_of_spec();
    k.map_event(ev("A", Clicked));
    assert_eq!(&vec![key("A")], k.get_active_complex_modifiers().unwrap().modifiers());
    k.map_event(ev("B", Clicked));
    assert_eq!(&vec![key("A"), key("B")], k.get_active_complex_modifiers().unwrap().modifiers());
}

#[test]
fn spec_scenario_two_modifier_layer() {
    let mut k = conf_of_spec();
    assert_eq!(vec![ev("A", Clicked)], k.map_event(ev("A", Clicked)));
    assert_eq!(vec![ev("B", Clicked)], k.map_event(ev("B", Clicked)));
    assert_eq!(
        vec![ev("A", ForceReleased), ev("B", ForceReleased), ev("2", Clicked)],
        k.map_event(ev("1", Clicked))
    );
    assert_eq!(vec![ev("2", Released)], k.map_event(ev("1", Released)));
    assert_eq!(Vec::<KbctEvent>::new(), k.map_event(ev("A", Released)));
    assert_eq!(Vec::<KbctEvent>::new(), k.map_event(ev("B", Released)));
    assert_eq!(0, k.key_states().len());
}

#[test]
fn illegal_transitions_emit_nothing() {
    let mut k = engine(&[], vec![(vec!["A"], vec![("1", "3")])]);
    assert_eq!(Vec::<KbctEvent>::new(), k.map_event(ev("Q", Released)));
    assert_eq!(Vec::<KbctEvent>::new(), k.map_event(ev("Q", Pressed)));
    k.map_event(ev("A", Clicked));
    k.map_event(ev("1", Clicked));
    assert_eq!(Some(ForceReleased), k.key_states().state_of(key("A")).map(|s| s.status));
    assert_eq!(Vec::<KbctEvent>::new(), k.map_event(ev("A", Clicked)));
    assert_eq!(Some(ForceReleased), k.key_states().state_of(key("A")).map(|s| s.status));
    assert_eq!(2, k.key_states().len());
}

#[test]
fn store_tracks_held_keys_and_clock() {
    let mut k = engine(&[("X", "M")], vec![]);
    assert!(k.has_room());
    assert_eq!(0, k.key_states().clock());
    k.map_event(ev("X", Clicked));
    k.map_event(ev("X", Pressed));
    assert!(k.key_states().is_pressed(key("X")));
    let st = k.key_states().state_of(key("X")).unwrap();
    assert_eq!(key("M"), st.mapped_code);
    assert_eq!(Clicked, st.status);
    assert_eq!(0, st.time);
    assert_eq!(1, k.key_states().clock());
    k.map_event(ev("X", Released));
    assert!(!k.key_states().is_pressed(key("X")));
    assert_eq!(2, k.key_states().clock());
}

#[test]
fn layer_triggers_are_sorted_and_unique() {
    let l = Layer::new(vec![5, 1, 5, 3], HashMap::new());
    assert_eq!(&vec![1, 3, 5], l.modifiers());
    assert_eq!(0, l.keymap().len());
}

#[test]
fn unknown_names_are_listed_sorted_and_quoted() {
    let k = Kbct::new(
        KbctConf {
            keyboards: vec![],
            keymap: Some(vec![("z\"q".to_string(), "ok".to_string()), ("b".to_string(), "b".to_string())]),
            layers: None,
        },
        |n: &String| if n == "ok" { Some(1) } else { None },
    );
    match k {
        Err(KbctError::Error(m)) => {
            assert_eq!("Configuration contains unknown keys: {\"b\", \"z\\\"q\"}", m)
        }
        Ok(_) => panic!("unknown names were accepted"),
    }
}

#[test]
fn later_simple_remap_wins() {
    let k = Kbct::new(
        KbctConf {
            keyboards: vec![],
            keymap: Some(vec![("a".to_string(), "b".to_string()), ("a".to_string(), "c".to_string())]),
            layers: Some(vec![]),
        },
        |n: &String| n.as_bytes().first().map(|b| *b as i32),
    )
    .unwrap();
    assert_eq!(1, k.simple_map().len());
    assert_eq!(key("c"), k.simple_map().get(&key("a")).unwrap().code);
    assert_eq!(0, k.layers().len());
}

#[test]
fn keyboards_lists_names() {
    let c = KbctConf { keyboards: vec!["x".to_string(), "y".to_string()], keymap: None, layers: None };
    let v: Vec<&String> = c.keyboards().collect();
    assert_eq!(vec!["x", "y"], v);
}

#[test]
fn linux_status_codes() {
    assert_eq!(Released, map_status_from_linux(0));
    assert_eq!(Clicked, map_status_from_linux(1));
    assert_eq!(Pressed, map_status_from_linux(2));
    assert_eq!(0, map_status_from_kbct(Released));
    assert_eq!(0, map_status_from_kbct(ForceReleased));
    assert_eq!(1, map_status_from_kbct(Clicked));
    assert_eq!(2, map_status_from_kbct(Pressed));
}

#[test]
fn key_map_event_in_wire_form() {
    let e = KeyMapEvent::from_kbct_event(
        Kbct::make_ev(30, Clicked),
        &vec![Kbct::make_ev(29, ForceReleased), Kbct::make_ev(31, Pressed)],
    );
    assert_eq!(KeyEvent { keycode: 30, statuscode: 1 }, e.input);
    assert_eq!(
        vec![KeyEvent { keycode: 29, statuscode: 0 }, KeyEvent { keycode: 31, statuscode: 2 }],
        e.output
    );
    assert_eq!("+a -> -leftctrl =s", e.to_line());
}

#[test]
fn only_key_events_reach_the_engine() {
    assert_eq!(Some(Kbct::make_ev(30, Pressed)), kbct_from_uinput_event(1, 30, 2));
    assert_eq!(Some(Kbct::make_ev(30, Released)), kbct_from_uinput_event(1, 30, 0));
    assert_eq!(None, kbct_from_uinput_event(2, 0, 5));
}

#[test]
fn capture_plan_skips_absent_and_captured_devices() {
    let s = |v: &[&str]| v.iter().map(|x| x.to_string()).collect::<Vec<String>>();
    let present = vec![
        ("kb1".to_string(), "/dev/input/event1".to_string()),
        ("kb2".to_string(), "/dev/input/event2".to_string()),
        ("kb3".to_string(), "/dev/input/event3".to_string()),
    ];
    let plan = kbct::devices::devices_to_capture(
        &s(&["kb3", "missing", "kb1", "kb2", "kb3"]),
        &present,
        &s(&["/dev/input/event2"]),
    );
    assert_eq!(
        vec![
            ("kb3".to_string(), "/dev/input/event3".to_string()),
            ("kb1".to_string(), "/dev/input/event1".to_string()),
        ],
        plan
    );
}

use std::collections::HashMap;

use kbct::config::{KbctComplexConf, KbctConf, KbctError};
use kbct::engine::Kbct;
use kbct::event::KbctKeyStatus::{self, Clicked, ForceReleased, Pressed, Released};
use kbct::event::KbctEvent;
use kbct::layers::{KeyPress, Layer};

fn key(str: &str) -> i32 {
    str.as_bytes()[0] as i32
}

fn create_keymap_func(f: fn(&str) -> i32) -> impl Fn(&String) -> Option<i32> {
    move |x: &String| match f(&x[..]) {
        -1 => None,
        x => Some(x),
    }
}

fn map_string(mp: Vec<(&str, &str)>) -> Vec<(String, String)> {
    mp.iter().map(|(k, v)| (k.to_string(), v.to_string())).collect()
}

fn vec_string(mp: Vec<&str>) -> Vec<String> {
    mp.iter().map(|x| x.to_string()).collect()
}

fn create_test_kbct() -> Result<Kbct, KbctError> {
    Kbct::new(
        KbctConf {
            keyboards: vec![],
            keymap: Some(map_string(vec![("3", "2")])),
            layers: Some(vec![
                KbctComplexConf {
                    modifiers: vec_string(vec!["A", "B"]),
                    keymap: map_string(vec![("1", "2"), ("2", "1")]),
                },
                KbctComplexConf {
                    modifiers: vec_string(vec!["A", "C"]),
                    keymap: map_string(vec![("2", "3")]),
                },
                KbctComplexConf {
                    modifiers: vec_string(vec!["A"]),
                    keymap: map_string(vec![("1", "3")]),
                },
            ]),
        },
        create_keymap_func(key),
    )
}

struct KbctTestContext {
    kbct: Kbct,
}

fn name_to_codes(map: Vec<(&str, &str)>) -> HashMap<i32, KeyPress> {
    map.into_iter()
        .map(|(l, r)| (key(l), KeyPress { code: key(r) }))
        .collect()
}

impl KbctTestContext {
    fn new(simple: Vec<(&str, &str)>, complex: Vec<(Vec<&str>, Vec<(&str, &str)>)>) -> KbctTestContext {
        let simple_codes = name_to_codes(simple);
        let layers = complex
            .into_iter()
            .map(|(l, r)| Layer::new(l.into_iter().map(key).collect(), name_to_codes(r)))
            .collect();
        KbctTestContext {
            kbct: Kbct::new_test(simple_codes, layers),
        }
    }

    fn run_test(&mut self, s: &str, ev_type: KbctKeyStatus, expected: Vec<(&str, KbctKeyStatus)>) {
        let exp: Vec<KbctEvent> = expected
            .iter()
            .map(|(x, y)| Kbct::make_ev(key(x), *y))
            .collect();
        let result = self.kbct.map_event(Kbct::make_ev(key(s), ev_type));
        assert_eq!(exp, result);
    }

    fn click(&mut self, key: &str, expected: Vec<(&str, KbctKeyStatus)>) {
        self.run_test(key, Clicked, expected);
    }

    fn press(&mut self, key: &str, expected: Vec<(&str, KbctKeyStatus)>) {
        self.run_test(key, Pressed, expected);
    }

    fn release(&mut self, key: &str, expected: Vec<(&str, KbctKeyStatus)>) {
        self.run_test(key, Released, expected);
    }
}

#[test]
fn test_map_event() {
    let mut test = KbctTestContext {
        kbct: create_test_kbct().unwrap(),
    };

    // single key with click and press
    test.click("A", vec![("A", Clicked)]);
    test.press("A", vec![("A", Pressed)]);
    test.press("A", vec![("A", Pressed)]);
    test.release("A", vec![("A", Released)]);

    // single key with click
    test.click("B", vec![("B", Clicked)]);
    test.release("B", vec![("B", Released)]);

    // key combo
    test.click("B", vec![("B", Clicked)]);
    test.click("A", vec![("A", Clicked)]);
    test.press("A", vec![("A", Pressed)]);
    test.release("B", vec![("B", Released)]);
    test.release("A", vec![("A", Released)]);

    // simple mapping
    test.click("A", vec![("A", Clicked)]);
    test.release("A", vec![("A", Released)]);
    test.click("3", vec![("2", Clicked)]);
    test.press("3", vec![("2", Pressed)]);
    test.release("3", vec![("2", Released)]);

    // complex mapping
    test.click("A", vec![("A", Clicked)]);
    test.click("1", vec![("A", ForceReleased), ("3", Clicked)]);
    test.release("1", vec![("3", Released)]);
    test.click("1", vec![("3", Clicked)]);
    test.click("3", vec![("A", Clicked), ("2", Clicked)]);
}

#[test]
fn test_1() {
    let mut kbct = KbctTestContext::new(
        vec![("1", "2"), ("3", "4")],
        vec![
            (vec!["A"], vec![("1", "3")]),
            (vec!["A", "B"], vec![("1", "5")]),
        ],
    );

    kbct.click("A", vec![("A", Clicked)]);
    kbct.click("1", vec![("A", ForceReleased), ("3", Clicked)]);
    kbct.release("1", vec![("3", Released)]);
    kbct.click("B", vec![("A", Clicked), ("B", Clicked)]);
    kbct.click(
        "1",
        vec![("A", ForceReleased), ("B", ForceReleased), ("5", Clicked)],
    );
}

#[test]
fn test_2() {
    let mut kbct = KbctTestContext::new(
        vec![("1", "2"), ("3", "4"), ("A", "C")],
        vec![
            (vec!["A"], vec![("1", "3")]),
            (vec!["A", "B"], vec![("1", "5")]),
        ],
    );

    kbct.click("A", vec![("C", Clicked)]);
    kbct.click("1", vec![("C", ForceReleased), ("3", Clicked)]);
    kbct.release("1", vec![("3", Released)]);
    kbct.click("B", vec![("C", Clicked), ("B", Clicked)]);
    kbct.click(
        "1",
        vec![("C", ForceReleased), ("B", ForceReleased), ("5", Clicked)],
    );
}

#[test]
fn test_3() {
    let mut kbct = KbctTestContext::new(
        vec![("X", "Z"), ("A", "B"), ("C", "K")],
        vec![
            (vec!["A"], vec![("X", "Y")]),
            (vec!["A", "C"], vec![("X", "T")]),
        ],
    );

    kbct.click("A", vec![("B", Clicked)]);
    kbct.click("X", vec![("B", ForceReleased), ("Y", Clicked)]);
    kbct.release("X", vec![("Y", Released)]);
    kbct.click("C", vec![("B", Clicked), ("K", Clicked)]);
    kbct.click(
        "X",
        vec![("B", ForceReleased), ("K", ForceReleased), ("T", Clicked)],
    );
}

#[test]
fn test_active_mapping() {
    let mut kbct = create_test_kbct().unwrap();
    kbct.map_event(Kbct::make_ev(key("A"), Clicked));
    kbct.map_event(Kbct::make_ev(key("B"), Clicked));
    kbct.map_event(Kbct::make_ev(key("C"), Clicked));
    let active = kbct.get_active_complex_modifiers().unwrap();
    assert_eq!(&vec![key("A"), key("C")], active.modifiers());

    let mut kbct = create_test_kbct().unwrap();
    kbct.map_event(Kbct::make_ev(key("A"), Clicked));
    let active = kbct.get_active_complex_modifiers().unwrap();
    assert_eq!(&vec![key("A")], active.modifiers());

    let mut kbct = create_test_kbct().unwrap();
    kbct.map_event(Kbct::make_ev(key("B"), Clicked));
    let active = kbct.get_active_complex_modifiers();
    assert!(active.is_none());
}

#[test]
fn test_create_kbct_fail() {
    let kbct = Kbct::new(
        KbctConf {
            keyboards: vec![],
            keymap: Some(map_string(vec![("C", "D")])),
            layers: Some(vec![
                KbctComplexConf {
                    modifiers: vec!["A".to_string(), "B".to_string()],
                    keymap: map_string(vec![("1", "2"), ("2", "1")]),
                },
                KbctComplexConf {
                    modifiers: vec!["A".to_string()],
                    keymap: map_string(vec![("1", "3")]),
                },
            ]),
        },
        |_: &String| None,
    );
    let err = "Configuration contains unknown keys: \
     {\"1\", \"2\", \"3\", \"A\", \"B\", \"C\", \"D\"}";
    match kbct {
        Ok(_) => assert!(false),
        Err(KbctError::Error(k)) => assert_eq!(err, k),
    }
}

#[test]
fn test_create_simple_kbct() {
    let simple = map_string(vec![("K1", "K2")]);
    let kbct = Kbct::new(
        KbctConf {
            keyboards: vec![],
            keymap: Some(simple),
            layers: None,
        },
        create_keymap_func(|x| match x {
            "K1" => 1,
            "K2" => 2,
            _ => -1,
        }),
    )
    .unwrap();
    assert_eq!(1, kbct.simple_map().len());
    assert_eq!(2, kbct.simple_map().get(&1).unwrap().code);
}

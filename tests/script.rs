use kbct::event::{KeyEvent, KeyMapEvent};
use kbct::keycodes::{code_to_name, linux_keyname_mapper, name_to_code};
use kbct::script::parse_test_case;

fn t(s: &str) -> String {
    parse_test_case(s).unwrap().to_line()
}

#[test]
fn integration_test_test_parse_test_case() {
    assert_eq!("+a -> +b", t("+a -> +b"));
    assert_eq!("-leftctrl -> ", t("-leftctrl ->    "));
    assert_eq!("-a -> +d -r =r", t("-a ->  +d -r   =r  "));
}

#[test]
fn parse_reads_codes_and_values() {
    let e = parse_test_case("=leftshift->+1 -esc").unwrap();
    assert_eq!(KeyEvent { keycode: 42, statuscode: 2 }, e.input);
    assert_eq!(
        vec![
            KeyEvent { keycode: 2, statuscode: 1 },
            KeyEvent { keycode: 1, statuscode: 0 },
        ],
        e.output
    );
}

#[test]
fn parse_rejects_malformed_lines() {
    assert!(parse_test_case("").is_none());
    assert!(parse_test_case("+a").is_none());
    assert!(parse_test_case("+a +b").is_none());
    assert!(parse_test_case(" +a -> +b").is_none());
    assert!(parse_test_case("*a -> +b").is_none());
    assert!(parse_test_case("+a -> +b+c").is_none());
    assert!(parse_test_case("+A -> +b").is_none());
    assert!(parse_test_case("+nosuchkey -> +b").is_none());
    assert!(parse_test_case("+a -> +nosuchkey").is_none());
    assert!(parse_test_case("+ -> +b").is_none());
}

#[test]
fn format_key_event_writes_sign_and_name() {
    assert_eq!("+a", KeyMapEvent::format_key_event(&KeyEvent { keycode: 30, statuscode: 1 }));
    assert_eq!("-leftctrl", KeyMapEvent::format_key_event(&KeyEvent { keycode: 29, statuscode: 0 }));
    assert_eq!("=f12", KeyMapEvent::format_key_event(&KeyEvent { keycode: 88, statuscode: 2 }));
    assert_eq!("+?", KeyMapEvent::format_key_event(&KeyEvent { keycode: 9999, statuscode: 1 }));
}

#[test]
fn vocabulary_round_trip() {
    assert_eq!(Some(30), name_to_code("a"));
    assert_eq!(Some(29), name_to_code("leftctrl"));
    assert_eq!(Some(11), name_to_code("0"));
    assert_eq!(Some(194), name_to_code("f24"));
    assert_eq!(None, name_to_code("A"));
    assert_eq!(None, name_to_code(""));
    assert_eq!(Some("a"), code_to_name(30));
    assert_eq!(Some("up"), code_to_name(103));
    assert_eq!(None, code_to_name(0));
    assert_eq!(None, code_to_name(-1));
    for c in 0..300 {
        if let Some(n) = code_to_name(c) {
            assert_eq!(Some(c), name_to_code(n));
        }
    }
}

#[test]
fn keyname_mapper_uses_the_vocabulary() {
    assert_eq!(Some(56), linux_keyname_mapper(&"leftalt".to_string()));
    assert_eq!(None, linux_keyname_mapper(&"KEY_LEFTALT".to_string()));
}

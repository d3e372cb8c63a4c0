//! The key code vocabulary: the names of Linux key codes, lower case and
//! without the `KEY_` prefix.

use vstd::prelude::*;

use crate::event::Keycode;

verus! {

/// One past the largest key code that has a name.
pub const KEY_CODE_END: Keycode = 195;

/// The name of a key code, if it has one.
pub open spec fn key_name(code: Keycode) -> Option<Seq<char>> {
    match code {
        1 => Some("esc"@),
        2 => Some("1"@),
        3 => Some("2"@),
        4 => Some("3"@),
        5 => Some("4"@),
        6 => Some("5"@),
        7 => Some("6"@),
        8 => Some("7"@),
        9 => Some("8"@),
        10 => Some("9"@),
        11 => Some("0"@),
        12 => Some("minus"@),
        13 => Some("equal"@),
        14 => Some("backspace"@),
        15 => Some("tab"@),
        16 => Some("q"@),
        17 => Some("w"@),
        18 => Some("e"@),
        19 => Some("r"@),
        20 => Some("t"@),
        21 => Some("y"@),
        22 => Some("u"@),
        23 => Some("i"@),
        24 => Some("o"@),
        25 => Some("p"@),
        26 => Some("leftbrace"@),
        27 => Some("rightbrace"@),
        28 => Some("enter"@),
        29 => Some("leftctrl"@),
        30 => Some("a"@),
        31 => Some("s"@),
        32 => Some("d"@),
        33 => Some("f"@),
        34 => Some("g"@),
        35 => Some("h"@),
        36 => Some("j"@),
        37 => Some("k"@),
        38 => Some("l"@),
        39 => Some("semicolon"@),
        40 => Some("apostrophe"@),
        41 => Some("grave"@),
        42 => Some("leftshift"@),
        43 => Some("backslash"@),
        44 => Some("z"@),
        45 => Some("x"@),
        46 => Some("c"@),
        47 => Some("v"@),
        48 => Some("b"@),
        49 => Some("n"@),
        50 => Some("m"@),
        51 => Some("comma"@),
        52 => Some("dot"@),
        53 => Some("slash"@),
        54 => Some("rightshift"@),
        55 => Some("kpasterisk"@),
        56 => Some("leftalt"@),
        57 => Some("space"@),
        58 => Some("capslock"@),
        59 => Some("f1"@),
        60 => Some("f2"@),
        61 => Some("f3"@),
        62 => Some("f4"@),
        63 => Some("f5"@),
        64 => Some("f6"@),
        65 => Some("f7"@),
        66 => Some("f8"@),
        67 => Some("f9"@),
        68 => Some("f10"@),
        69 => Some("numlock"@),
        70 => Some("scrolllock"@),
        71 => Some("kp7"@),
        72 => Some("kp8"@),
        73 => Some("kp9"@),
        74 => Some("kpminus"@),
        75 => Some("kp4"@),
        76 => Some("kp5"@),
        77 => Some("kp6"@),
        78 => Some("kpplus"@),
        79 => Some("kp1"@),
        80 => Some("kp2"@),
        81 => Some("kp3"@),
        82 => Some("kp0"@),
        83 => Some("kpdot"@),
        85 => Some("zenkakuhankaku"@),
        86 => Some("102nd"@),
        87 => Some("f11"@),
        88 => Some("f12"@),
        89 => Some("ro"@),
        90 => Some("katakana"@),
        91 => Some("hiragana"@),
        92 => Some("henkan"@),
        93 => Some("katakanahiragana"@),
        94 => Some("muhenkan"@),
        95 => Some("kpjpcomma"@),
        96 => Some("kpenter"@),
        97 => Some("rightctrl"@),
        98 => Some("kpslash"@),
        99 => Some("sysrq"@),
        100 => Some("rightalt"@),
        101 => Some("linefeed"@),
        102 => Some("home"@),
        103 => Some("up"@),
        104 => Some("pageup"@),
        105 => Some("left"@),
        106 => Some("right"@),
        107 => Some("end"@),
        108 => Some("down"@),
        109 => Some("pagedown"@),
        110 => Some("insert"@),
        111 => Some("delete"@),
        112 => Some("macro"@),
        113 => Some("mute"@),
        114 => Some("volumedown"@),
        115 => Some("volumeup"@),
        116 => Some("power"@),
        117 => Some("kpequal"@),
        118 => Some("kpplusminus"@),
        119 => Some("pause"@),
        120 => Some("scale"@),
        121 => Some("kpcomma"@),
        122 => Some("hangeul"@),
        123 => Some("hanja"@),
        124 => Some("yen"@),
        125 => Some("leftmeta"@),
        126 => Some("rightmeta"@),
        127 => Some("compose"@),
        128 => Some("stop"@),
        129 => Some("again"@),
        130 => Some("props"@),
        131 => Some("undo"@),
        132 => Some("front"@),
        133 => Some("copy"@),
        134 => Some("open"@),
        135 => Some("paste"@),
        136 => Some("find"@),
        137 => Some("cut"@),
        138 => Some("help"@),
        139 => Some("menu"@),
        140 => Some("calc"@),
        141 => Some("setup"@),
        142 => Some("sleep"@),
        143 => Some("wakeup"@),
        144 => Some("file"@),
        145 => Some("sendfile"@),
        146 => Some("deletefile"@),
        147 => Some("xfer"@),
        148 => Some("prog1"@),
        149 => Some("prog2"@),
        150 => Some("www"@),
        151 => Some("msdos"@),
        152 => Some("coffee"@),
        153 => Some("rotate_display"@),
        154 => Some("cyclewindows"@),
        155 => Some("mail"@),
        156 => Some("bookmarks"@),
        157 => Some("computer"@),
        158 => Some("back"@),
        159 => Some("forward"@),
        160 => Some("closecd"@),
        161 => Some("ejectcd"@),
        162 => Some("ejectclosecd"@),
        163 => Some("nextsong"@),
        164 => Some("playpause"@),
        165 => Some("previoussong"@),
        166 => Some("stopcd"@),
        167 => Some("record"@),
        168 => Some("rewind"@),
        169 => Some("phone"@),
        170 => Some("iso"@),
        171 => Some("config"@),
        172 => Some("homepage"@),
        173 => Some("refresh"@),
        174 => Some("exit"@),
        175 => Some("move"@),
        176 => Some("edit"@),
        177 => Some("scrollup"@),
        178 => Some("scrolldown"@),
        179 => Some("kpleftparen"@),
        180 => Some("kprightparen"@),
        181 => Some("new"@),
        182 => Some("redo"@),
        183 => Some("f13"@),
        184 => Some("f14"@),
        185 => Some("f15"@),
        186 => Some("f16"@),
        187 => Some("f17"@),
        188 => Some("f18"@),
        189 => Some("f19"@),
        190 => Some("f20"@),
        191 => Some("f21"@),
        192 => Some("f22"@),
        193 => Some("f23"@),
        194 => Some("f24"@),
        _ => None,
    }
}

/// The name of a key code, if it has one.
pub fn code_to_name(code: Keycode) -> (r: Option<&'static str>)
    ensures
        match r {
            Some(s) => key_name(code) == Some(s@),
            None => key_name(code) is None,
        },
{
    match code {
        1 => Some("esc"),
        2 => Some("1"),
        3 => Some("2"),
        4 => Some("3"),
        5 => Some("4"),
        6 => Some("5"),
        7 => Some("6"),
        8 => Some("7"),
        9 => Some("8"),
        10 => Some("9"),
        11 => Some("0"),
        12 => Some("minus"),
        13 => Some("equal"),
        14 => Some("backspace"),
        15 => Some("tab"),
        16 => Some("q"),
        17 => Some("w"),
        18 => Some("e"),
        19 => Some("r"),
        20 => Some("t"),
        21 => Some("y"),
        22 => Some("u"),
        23 => Some("i"),
        24 => Some("o"),
        25 => Some("p"),
        26 => Some("leftbrace"),
        27 => Some("rightbrace"),
        28 => Some("enter"),
        29 => Some("leftctrl"),
        30 => Some("a"),
        31 => Some("s"),
        32 => Some("d"),
        33 => Some("f"),
        34 => Some("g"),
        35 => Some("h"),
        36 => Some("j"),
        37 => Some("k"),
        38 => Some("l"),
        39 => Some("semicolon"),
        40 => Some("apostrophe"),
        41 => Some("grave"),
        42 => Some("leftshift"),
        43 => Some("backslash"),
        44 => Some("z"),
        45 => Some("x"),
        46 => Some("c"),
        47 => Some("v"),
        48 => Some("b"),
        49 => Some("n"),
        50 => Some("m"),
        51 => Some("comma"),
        52 => Some("dot"),
        53 => Some("slash"),
        54 => Some("rightshift"),
        55 => Some("kpasterisk"),
        56 => Some("leftalt"),
        57 => Some("space"),
        58 => Some("capslock"),
        59 => Some("f1"),
        60 => Some("f2"),
        61 => Some("f3"),
        62 => Some("f4"),
        63 => Some("f5"),
        64 => Some("f6"),
        65 => Some("f7"),
        66 => Some("f8"),
        67 => Some("f9"),
        68 => Some("f10"),
        69 => Some("numlock"),
        70 => Some("scrolllock"),
        71 => Some("kp7"),
        72 => Some("kp8"),
        73 => Some("kp9"),
        74 => Some("kpminus"),
        75 => Some("kp4"),
        76 => Some("kp5"),
        77 => Some("kp6"),
        78 => Some("kpplus"),
        79 => Some("kp1"),
        80 => Some("kp2"),
        81 => Some("kp3"),
        82 => Some("kp0"),
        83 => Some("kpdot"),
        85 => Some("zenkakuhankaku"),
        86 => Some("102nd"),
        87 => Some("f11"),
        88 => Some("f12"),
        89 => Some("ro"),
        90 => Some("katakana"),
        91 => Some("hiragana"),
        92 => Some("henkan"),
        93 => Some("katakanahiragana"),
        94 => Some("muhenkan"),
        95 => Some("kpjpcomma"),
        96 => Some("kpenter"),
        97 => Some("rightctrl"),
        98 => Some("kpslash"),
        99 => Some("sysrq"),
        100 => Some("rightalt"),
        101 => Some("linefeed"),
        102 => Some("home"),
        103 => Some("up"),
        104 => Some("pageup"),
        105 => Some("left"),
        106 => Some("right"),
        107 => Some("end"),
        108 => Some("down"),
        109 => Some("pagedown"),
        110 => Some("insert"),
        111 => Some("delete"),
        112 => Some("macro"),
        113 => Some("mute"),
        114 => Some("volumedown"),
        115 => Some("volumeup"),
        116 => Some("power"),
        117 => Some("kpequal"),
        118 => Some("kpplusminus"),
        119 => Some("pause"),
        120 => Some("scale"),
        121 => Some("kpcomma"),
        122 => Some("hangeul"),
        123 => Some("hanja"),
        124 => Some("yen"),
        125 => Some("leftmeta"),
        126 => Some("rightmeta"),
        127 => Some("compose"),
        128 => Some("stop"),
        129 => Some("again"),
        130 => Some("props"),
        131 => Some("undo"),
        132 => Some("front"),
        133 => Some("copy"),
        134 => Some("open"),
        135 => Some("paste"),
        136 => Some("find"),
        137 => Some("cut"),
        138 => Some("help"),
        139 => Some("menu"),
        140 => Some("calc"),
        141 => Some("setup"),
        142 => Some("sleep"),
        143 => Some("wakeup"),
        144 => Some("file"),
        145 => Some("sendfile"),
        146 => Some("deletefile"),
        147 => Some("xfer"),
        148 => Some("prog1"),
        149 => Some("prog2"),
        150 => Some("www"),
        151 => Some("msdos"),
        152 => Some("coffee"),
        153 => Some("rotate_display"),
        154 => Some("cyclewindows"),
        155 => Some("mail"),
        156 => Some("bookmarks"),
        157 => Some("computer"),
        158 => Some("back"),
        159 => Some("forward"),
        160 => Some("closecd"),
        161 => Some("ejectcd"),
        162 => Some("ejectclosecd"),
        163 => Some("nextsong"),
        164 => Some("playpause"),
        165 => Some("previoussong"),
        166 => Some("stopcd"),
        167 => Some("record"),
        168 => Some("rewind"),
        169 => Some("phone"),
        170 => Some("iso"),
        171 => Some("config"),
        172 => Some("homepage"),
        173 => Some("refresh"),
        174 => Some("exit"),
        175 => Some("move"),
        176 => Some("edit"),
        177 => Some("scrollup"),
        178 => Some("scrolldown"),
        179 => Some("kpleftparen"),
        180 => Some("kprightparen"),
        181 => Some("new"),
        182 => Some("redo"),
        183 => Some("f13"),
        184 => Some("f14"),
        185 => Some("f15"),
        186 => Some("f16"),
        187 => Some("f17"),
        188 => Some("f18"),
        189 => Some("f19"),
        190 => Some("f20"),
        191 => Some("f21"),
        192 => Some("f22"),
        193 => Some("f23"),
        194 => Some("f24"),
        _ => None,
    }
}


/// The smallest key code from `from` on whose name is `n`.
pub open spec fn first_code_named(n: Seq<char>, from: int) -> Option<Keycode>
    decreases KEY_CODE_END - from,
{
    if from < 0 || from >= KEY_CODE_END {
        None
    } else if key_name(from as Keycode) == Some(n) {
        Some(from as Keycode)
    } else {
        first_code_named(n, from + 1)
    }
}

/// The key code named `n`, if any.
pub open spec fn code_named(n: Seq<char>) -> Option<Keycode> {
    first_code_named(n, 0)
}

/// The code found from `from` on has the name, and none is found only where
/// no code from `from` on has it.
proof fn lemma_first_code_named(n: Seq<char>, from: int)
    requires
        0 <= from,
    ensures
        match first_code_named(n, from) {
            Some(c) => from <= c < KEY_CODE_END && key_name(c) == Some(n),
            None => forall|c: Keycode| from <= c ==> key_name(c) != Some(n),
        },
    decreases KEY_CODE_END - from,
{
    if from < KEY_CODE_END {
        lemma_first_code_named(n, from + 1);
    } else {
        assert forall|c: Keycode| from <= c implies key_name(c) != Some(n) by {
        }
    }
}

/// Whether two strings are equal, by their bytes.
fn str_same(a: &str, b: &str) -> (r: bool)
    ensures
        r == (a@ == b@),
{
    let x = a.as_bytes();
    let y = b.as_bytes();
    proof {
        vstd::utf8::encode_utf8_decode_utf8(a@);
        vstd::utf8::encode_utf8_decode_utf8(b@);
    }
    if x.len() != y.len() {
        return false;
    }
    let mut i: usize = 0;
    while i < x.len()
        invariant
            x@ == vstd::utf8::encode_utf8(a@),
            y@ == vstd::utf8::encode_utf8(b@),
            x@.len() == y@.len(),
            i <= x@.len(),
            x@.subrange(0, i as int) == y@.subrange(0, i as int),
        decreases x@.len() - i,
    {
        if x[i] != y[i] {
            return false;
        }
        assert(x@.subrange(0, i + 1) =~= x@.subrange(0, i as int).push(x@[i as int]));
        assert(y@.subrange(0, i + 1) =~= y@.subrange(0, i as int).push(y@[i as int]));
        i = i + 1;
    }
    assert(x@ =~= x@.subrange(0, i as int));
    assert(y@ =~= y@.subrange(0, i as int));
    true
}

/// The key code of a name, if the vocabulary has the name.
pub fn name_to_code(name: &str) -> (r: Option<Keycode>)
    ensures
        r == code_named(name@),
        r matches Some(c) ==> key_name(c) == Some(name@),
{
    proof {
        lemma_first_code_named(name@, 0);
    }
    let mut c: Keycode = 0;
    while c < KEY_CODE_END
        invariant
            0 <= c <= KEY_CODE_END,
            first_code_named(name@, 0) == first_code_named(name@, c as int),
        decreases KEY_CODE_END - c,
    {
        match code_to_name(c) {
            Some(s) => {
                if str_same(s, name) {
                    return Some(c);
                }
            },
            None => {},
        }
        c = c + 1;
    }
    None
}


/// Translates a key name of a configuration into its Linux key code.
pub fn linux_keyname_mapper(name: &String) -> (r: Option<Keycode>)
    ensures
        r == code_named(name@),
{
    name_to_code(name.as_str())
}

} // verus!

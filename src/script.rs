//! The textual form of key events in recorded event scripts: `+a`, `-a`,
//! `=a` for a press, a release and an auto-repeat of the key named `a`.

use vstd::prelude::*;
use vstd::string::StringExecFns;

use crate::event::{KeyEvent, KeyMapEvent, Keycode};
use crate::keycodes::{code_to_name, key_name, KEY_CODE_END};

verus! {

/// The sign of a Linux key event value.
pub open spec fn status_sign(statuscode: i32) -> Seq<char> {
    if statuscode == 1 {
        "+"@
    } else if statuscode == 0 {
        "-"@
    } else {
        "="@
    }
}

/// The name of a key code as a script writes it; `?` for a code without one.
pub open spec fn script_name(code: i32) -> Seq<char> {
    match key_name(code) {
        Some(n) => n,
        None => "?"@,
    }
}

/// A key event as a script writes it.
pub open spec fn event_text(x: KeyEvent) -> Seq<char> {
    status_sign(x.statuscode) + script_name(x.keycode)
}

/// The texts of key events, separated by single spaces.
pub open spec fn events_text(v: Seq<KeyEvent>) -> Seq<char>
    decreases v.len(),
{
    if v.len() == 0 {
        Seq::empty()
    } else if v.len() == 1 {
        event_text(v[0])
    } else {
        events_text(v.drop_last()) + " "@ + event_text(v.last())
    }
}

/// A script line: the input event, an arrow, and the output events.
pub open spec fn line_text(e: KeyMapEvent) -> Seq<char> {
    event_text(e.input) + " -> "@ + events_text(e.output@)
}

impl KeyMapEvent {
    /// A key event as a script writes it.
    pub fn format_key_event(x: &KeyEvent) -> (r: String)
        requires
            0 <= x.statuscode <= 2,
        ensures
            r@ == event_text(*x),
    {
        let mut r = if x.statuscode == 1 {
            String::from_str("+")
        } else if x.statuscode == 0 {
            String::from_str("-")
        } else {
            String::from_str("=")
        };
        match code_to_name(x.keycode) {
            Some(n) => r.append(n),
            None => r.append("?"),
        }
        r
    }

    /// The script line of this event: `<input> -> <outputs>`.
    pub fn to_line(&self) -> (r: String)
        requires
            0 <= self.input.statuscode <= 2,
            forall|i: int| 0 <= i < self.output@.len() ==> 0 <= #[trigger] self.output@[i].statuscode <= 2,
        ensures
            r@ == line_text(*self),
    {
        let mut outs = String::new();
        let mut i: usize = 0;
        while i < self.output.len()
            invariant
                i <= self.output@.len(),
                forall|i: int| 0 <= i < self.output@.len() ==> 0 <= #[trigger] self.output@[i].statuscode <= 2,
                outs@ == events_text(self.output@.subrange(0, i as int)),
            decreases self.output@.len() - i,
        {
            let ghost v1 = self.output@.subrange(0, i + 1);
            assert(v1.drop_last() =~= self.output@.subrange(0, i as int));
            if i > 0 {
                outs.append(" ");
            }
            let t = KeyMapEvent::format_key_event(&self.output[i]);
            outs.append(t.as_str());
            proof {
                if i == 0 {
                    assert(outs@ =~= event_text(v1[0]));
                } else {
                    assert(outs@ =~= events_text(v1.drop_last()) + " "@ + event_text(v1.last()));
                }
            }
            i = i + 1;
        }
        assert(self.output@.subrange(0, self.output@.len() as int) =~= self.output@);
        let mut r = KeyMapEvent::format_key_event(&self.input);
        r.append(" -> ");
        r.append(outs.as_str());
        r
    }
}


/// Whether a byte is white space: space, tab, line feed, vertical tab, form
/// feed or carriage return.
pub open spec fn is_space(b: u8) -> bool {
    b == 32 || (9 <= b && b <= 13)
}

/// Whether a byte may stand in a key name: a digit, a lower-case letter or
/// `_`.
pub open spec fn is_name_byte(b: u8) -> bool {
    (48 <= b && b <= 57) || (97 <= b && b <= 122) || b == 95
}

/// The event value that a sign stands for: `+` a press, `-` a release, `=`
/// an auto-repeat.
pub open spec fn sign_value(b: u8) -> Option<i32> {
    if b == 43 {
        Some(1)
    } else if b == 45 {
        Some(0)
    } else if b == 61 {
        Some(2)
    } else {
        None
    }
}

/// The smallest key code from `from` on whose name has the bytes `b`.
pub open spec fn first_code_with_bytes(b: Seq<u8>, from: int) -> Option<Keycode>
    decreases KEY_CODE_END - from,
{
    if from < 0 || from >= KEY_CODE_END {
        None
    } else if key_name(from as Keycode) matches Some(n) && vstd::utf8::encode_utf8(n) == b {
        Some(from as Keycode)
    } else {
        first_code_with_bytes(b, from + 1)
    }
}

/// Where a script line is while it is read.
#[derive(Debug, Copy, Clone, PartialEq, Eq, Structural)]
pub enum ScanPhase {
    /// Before the sign of the input event.
    Start,
    /// In the name of the input event.
    InputName,
    /// Between the input event and the arrow.
    BeforeArrow,
    /// After the `-` of the arrow.
    Arrow,
    /// After the arrow, before the first output event.
    AfterArrow,
    /// In the name of an output event.
    OutputName,
    /// In the spaces after an output event.
    Between,
    /// The line is malformed.
    Failed,
}

/// What has been read of a script line.
pub ghost struct ScanModel {
    pub phase: ScanPhase,
    pub sign: i32,
    pub name: Seq<u8>,
    pub input: KeyEvent,
    pub outputs: Seq<KeyEvent>,
}

/// The scan of an empty line.
pub open spec fn scan_start() -> ScanModel {
    ScanModel {
        phase: ScanPhase::Start,
        sign: 0,
        name: Seq::empty(),
        input: KeyEvent { keycode: 0, statuscode: 0 },
        outputs: Seq::empty(),
    }
}

/// The scan after a name ended: its event, or a failure for an unknown name.
pub open spec fn end_name(st: ScanModel, next: ScanPhase) -> ScanModel {
    match first_code_with_bytes(st.name, 0) {
        Some(c) => {
            let e = KeyEvent { keycode: c, statuscode: st.sign };
            if st.phase == ScanPhase::InputName {
                ScanModel { phase: next, name: Seq::empty(), input: e, ..st }
            } else {
                ScanModel { phase: next, name: Seq::empty(), outputs: st.outputs.push(e), ..st }
            }
        },
        None => ScanModel { phase: ScanPhase::Failed, ..st },
    }
}

/// The scan after one more byte.
pub open spec fn scan_byte(st: ScanModel, b: u8) -> ScanModel {
    let fail = ScanModel { phase: ScanPhase::Failed, ..st };
    match st.phase {
        ScanPhase::Start => match sign_value(b) {
            Some(v) => ScanModel { phase: ScanPhase::InputName, sign: v, name: Seq::empty(), ..st },
            None => fail,
        },
        ScanPhase::InputName => if is_name_byte(b) {
            ScanModel { name: st.name.push(b), ..st }
        } else if st.name.len() == 0 {
            fail
        } else if is_space(b) {
            end_name(st, ScanPhase::BeforeArrow)
        } else if b == 45 {
            end_name(st, ScanPhase::Arrow)
        } else {
            fail
        },
        ScanPhase::BeforeArrow => if is_space(b) {
            st
        } else if b == 45 {
            ScanModel { phase: ScanPhase::Arrow, ..st }
        } else {
            fail
        },
        ScanPhase::Arrow => if b == 62 {
            ScanModel { phase: ScanPhase::AfterArrow, ..st }
        } else {
            fail
        },
        ScanPhase::AfterArrow | ScanPhase::Between => if is_space(b) {
            st
        } else {
            match sign_value(b) {
                Some(v) => ScanModel { phase: ScanPhase::OutputName, sign: v, name: Seq::empty(), ..st },
                None => fail,
            }
        },
        ScanPhase::OutputName => if is_name_byte(b) {
            ScanModel { name: st.name.push(b), ..st }
        } else if st.name.len() > 0 && is_space(b) {
            end_name(st, ScanPhase::Between)
        } else {
            fail
        },
        ScanPhase::Failed => st,
    }
}

/// The scan of the bytes `s`.
pub open spec fn scan(s: Seq<u8>) -> ScanModel
    decreases s.len(),
{
    if s.len() == 0 {
        scan_start()
    } else {
        scan_byte(scan(s.drop_last()), s.last())
    }
}

/// The input event and the output events of a well-formed script line;
/// `None` for a malformed one.
pub open spec fn parse_line(s: Seq<u8>) -> Option<(KeyEvent, Seq<KeyEvent>)> {
    let st = scan(s);
    let done = if st.phase == ScanPhase::OutputName && st.name.len() > 0 {
        end_name(st, ScanPhase::Between)
    } else {
        st
    };
    if done.phase == ScanPhase::AfterArrow || done.phase == ScanPhase::Between {
        Some((done.input, done.outputs))
    } else {
        None
    }
}


fn code_with_bytes(b: &Vec<u8>) -> (r: Option<Keycode>)
    ensures
        r == first_code_with_bytes(b@, 0),
{
    let mut c: Keycode = 0;
    while c < KEY_CODE_END
        invariant
            0 <= c <= KEY_CODE_END,
            first_code_with_bytes(b@, 0) == first_code_with_bytes(b@, c as int),
        decreases KEY_CODE_END - c,
    {
        match code_to_name(c) {
            Some(n) => {
                let x = n.as_bytes();
                if x.len() == b.len() {
                    let mut i: usize = 0;
                    let mut same = true;
                    assert(x@.subrange(0, 0) =~= b@.subrange(0, 0));
                    while i < x.len()
                        invariant
                            x@ == vstd::utf8::encode_utf8(n@),
                            x@.len() == b@.len(),
                            i <= x@.len(),
                            same == (x@.subrange(0, i as int) == b@.subrange(0, i as int)),
                        decreases x@.len() - i,
                    {
                        assert(x@.subrange(0, i + 1) =~= x@.subrange(0, i as int).push(x@[i as int]));
                        assert(b@.subrange(0, i + 1) =~= b@.subrange(0, i as int).push(b@[i as int]));
                        if x[i] != b[i] {
                            same = false;
                        }
                        proof {
                            if x@.subrange(0, i + 1) == b@.subrange(0, i + 1) {
                                assert(x@.subrange(0, i + 1)[i as int] == b@.subrange(0, i + 1)[i as int]);
                                assert(x@.subrange(0, i + 1).drop_last() =~= x@.subrange(0, i as int));
                                assert(b@.subrange(0, i + 1).drop_last() =~= b@.subrange(0, i as int));
                            }
                        }
                        i = i + 1;
                    }
                    assert(x@ =~= x@.subrange(0, i as int));
                    assert(b@ =~= b@.subrange(0, i as int));
                    if same {
                        return Some(c);
                    }
                }
            },
            None => {},
        }
        c = c + 1;
    }
    None
}

struct Scan {
    phase: ScanPhase,
    sign: i32,
    name: Vec<u8>,
    input: KeyEvent,
    outputs: Vec<KeyEvent>,
}

impl View for Scan {
    type V = ScanModel;

    closed spec fn view(&self) -> ScanModel {
        ScanModel {
            phase: self.phase,
            sign: self.sign,
            name: self.name@,
            input: self.input,
            outputs: self.outputs@,
        }
    }
}

impl Scan {
    fn end_name(&mut self, next: ScanPhase)
        ensures
            final(self)@ == end_name(old(self)@, next),
    {
        match code_with_bytes(&self.name) {
            Some(c) => {
                let e = KeyEvent { keycode: c, statuscode: self.sign };
                if self.phase == ScanPhase::InputName {
                    self.input = e;
                } else {
                    self.outputs.push(e);
                }
                self.phase = next;
                self.name = Vec::new();
                assert(self@.name =~= Seq::<u8>::empty());
            },
            None => {
                self.phase = ScanPhase::Failed;
            },
        }
    }

    fn sign_of(b: u8) -> (r: Option<i32>)
        ensures
            r == sign_value(b),
    {
        if b == 43 {
            Some(1)
        } else if b == 45 {
            Some(0)
        } else if b == 61 {
            Some(2)
        } else {
            None
        }
    }

    fn start_name(&mut self, b: u8, next: ScanPhase)
        ensures
            final(self)@ == (match sign_value(b) {
                Some(v) => ScanModel { phase: next, sign: v, name: Seq::empty(), ..old(self)@ },
                None => ScanModel { phase: ScanPhase::Failed, ..old(self)@ },
            }),
    {
        match Scan::sign_of(b) {
            Some(v) => {
                self.phase = next;
                self.sign = v;
                self.name = Vec::new();
                assert(self@.name =~= Seq::<u8>::empty());
            },
            None => {
                self.phase = ScanPhase::Failed;
            },
        }
    }

    fn scan_byte(&mut self, b: u8)
        ensures
            final(self)@ == scan_byte(old(self)@, b),
    {
        let name_byte = (48 <= b && b <= 57) || (97 <= b && b <= 122) || b == 95;
        let space = b == 32 || (9 <= b && b <= 13);
        match self.phase {
            ScanPhase::Start => self.start_name(b, ScanPhase::InputName),
            ScanPhase::InputName => {
                if name_byte {
                    self.name.push(b);
                } else if self.name.len() == 0 {
                    self.phase = ScanPhase::Failed;
                } else if space {
                    self.end_name(ScanPhase::BeforeArrow);
                } else if b == 45 {
                    self.end_name(ScanPhase::Arrow);
                } else {
                    self.phase = ScanPhase::Failed;
                }
            },
            ScanPhase::BeforeArrow => {
                if space {
                } else if b == 45 {
                    self.phase = ScanPhase::Arrow;
                } else {
                    self.phase = ScanPhase::Failed;
                }
            },
            ScanPhase::Arrow => {
                if b == 62 {
                    self.phase = ScanPhase::AfterArrow;
                } else {
                    self.phase = ScanPhase::Failed;
                }
            },
            ScanPhase::AfterArrow | ScanPhase::Between => {
                if !space {
                    self.start_name(b, ScanPhase::OutputName);
                }
            },
            ScanPhase::OutputName => {
                if name_byte {
                    self.name.push(b);
                } else if self.name.len() > 0 && space {
                    self.end_name(ScanPhase::Between);
                } else {
                    self.phase = ScanPhase::Failed;
                }
            },
            ScanPhase::Failed => {},
        }
    }
}

/// Reads a script line `<sign><name> -> <sign><name> ...`: the input event,
/// then the output events; `None` where the line is malformed or names an
/// unknown key.
pub fn parse_test_case(line: &str) -> (r: Option<KeyMapEvent>)
    ensures
        match parse_line(vstd::utf8::encode_utf8(line@)) {
            Some((input, output)) => r matches Some(e) && e.input == input && e.output@ == output,
            None => r is None,
        },
{
    let bytes = line.as_bytes();
    let mut st = Scan {
        phase: ScanPhase::Start,
        sign: 0,
        name: Vec::new(),
        input: KeyEvent { keycode: 0, statuscode: 0 },
        outputs: Vec::new(),
    };
    assert(st@ =~= scan_start());
    let mut i: usize = 0;
    while i < bytes.len()
        invariant
            i <= bytes@.len(),
            bytes@ == vstd::utf8::encode_utf8(line@),
            st@ == scan(bytes@.subrange(0, i as int)),
        decreases bytes@.len() - i,
    {
        assert(bytes@.subrange(0, i + 1).drop_last() =~= bytes@.subrange(0, i as int));
        st.scan_byte(bytes[i]);
        i = i + 1;
    }
    assert(bytes@.subrange(0, bytes@.len() as int) =~= bytes@);
    if st.phase == ScanPhase::OutputName && st.name.len() > 0 {
        st.end_name(ScanPhase::Between);
    }
    if st.phase == ScanPhase::AfterArrow || st.phase == ScanPhase::Between {
        Some(KeyMapEvent { input: st.input, output: st.outputs })
    } else {
        None
    }
}

} // verus!

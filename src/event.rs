//! Key events, key statuses and their encoding on the Linux input wire.

use vstd::prelude::*;

verus! {

/// A Linux input event code.
pub type Keycode = i32;

/// What happened to a key in one event.
///
/// `ForceReleased` is never read from a device: it marks a physical key that
/// is still held while its logical effect was withdrawn by the engine.
#[derive(Debug, Copy, Clone, PartialEq, Eq, Structural)]
pub enum KbctKeyStatus {
    ForceReleased,
    Released,
    Clicked,
    Pressed,
}

/// One key event, read from a device or emitted by the engine.
#[derive(Debug, Copy, Clone, PartialEq, Eq, Structural)]
pub struct KbctEvent {
    pub code: Keycode,
    pub ev_type: KbctKeyStatus,
}

/// The status that a Linux key event value stands for: 0, 1 and 2 are
/// release, press and auto-repeat.
pub open spec fn status_of_linux_value(val: int) -> KbctKeyStatus {
    if val == 0 {
        KbctKeyStatus::Released
    } else if val == 1 {
        KbctKeyStatus::Clicked
    } else {
        KbctKeyStatus::Pressed
    }
}

/// The Linux key event value of a status; a forced release is a release on
/// the wire.
pub open spec fn linux_value_of_status(st: KbctKeyStatus) -> i32 {
    match st {
        KbctKeyStatus::Released | KbctKeyStatus::ForceReleased => 0,
        KbctKeyStatus::Clicked => 1,
        KbctKeyStatus::Pressed => 2,
    }
}

/// Decodes the value of a Linux key event.
pub fn map_status_from_linux(val: i32) -> (r: KbctKeyStatus)
    requires
        0 <= val <= 2,
    ensures
        r == status_of_linux_value(val as int),
        linux_value_of_status(r) == val,
{
    if val == 0 {
        KbctKeyStatus::Released
    } else if val == 1 {
        KbctKeyStatus::Clicked
    } else {
        KbctKeyStatus::Pressed
    }
}

/// Encodes a status as the value of a Linux key event.
pub fn map_status_from_kbct(val: KbctKeyStatus) -> (r: i32)
    ensures
        r == linux_value_of_status(val),
        0 <= r <= 2,
{
    match val {
        KbctKeyStatus::Released | KbctKeyStatus::ForceReleased => 0,
        KbctKeyStatus::Clicked => 1,
        KbctKeyStatus::Pressed => 2,
    }
}

/// The Linux event type of key events.
pub const EV_KEY: i32 = 1;

/// The engine event of a Linux input event of type `kind`; `None` for an
/// event of another type, which is not the engine's to map.
pub fn kbct_from_uinput_event(kind: i32, code: i32, value: i32) -> (r: Option<KbctEvent>)
    requires
        kind == EV_KEY ==> 0 <= value <= 2,
    ensures
        r == (if kind == EV_KEY {
            Some(KbctEvent { code, ev_type: status_of_linux_value(value as int) })
        } else {
            None
        }),
{
    if kind == EV_KEY {
        Some(KbctEvent { code, ev_type: map_status_from_linux(value) })
    } else {
        None
    }
}

/// A key event as it stands on the Linux wire: a code and a value.
#[derive(Debug, Clone, PartialEq, Eq, Structural)]
pub struct KeyEvent {
    pub keycode: i32,
    pub statuscode: i32,
}

impl KeyEvent {
    /// The wire form of an engine event.
    pub fn from_kbct_event(ev: &KbctEvent) -> (r: KeyEvent)
        ensures
            r.keycode == ev.code,
            r.statuscode == linux_value_of_status(ev.ev_type),
    {
        KeyEvent { keycode: ev.code, statuscode: map_status_from_kbct(ev.ev_type) }
    }
}

/// One input event together with the events that the engine emitted for it,
/// both in wire form.
#[derive(Debug, Clone)]
pub struct KeyMapEvent {
    pub input: KeyEvent,
    pub output: Vec<KeyEvent>,
}

/// The wire form of an engine event, as a spec value.
pub open spec fn wire_of(ev: KbctEvent) -> KeyEvent {
    KeyEvent { keycode: ev.code, statuscode: linux_value_of_status(ev.ev_type) }
}

impl KeyMapEvent {
    /// Pairs an input event with the engine's output for it, both in wire form.
    pub fn from_kbct_event(input: KbctEvent, output: &Vec<KbctEvent>) -> (r: KeyMapEvent)
        ensures
            r.input == wire_of(input),
            r.output@ == output@.map_values(|e: KbctEvent| wire_of(e)),
    {
        let mut out: Vec<KeyEvent> = Vec::new();
        let mut i: usize = 0;
        while i < output.len()
            invariant
                i <= output@.len(),
                out@ == output@.subrange(0, i as int).map_values(|e: KbctEvent| wire_of(e)),
            decreases output@.len() - i,
        {
            out.push(KeyEvent::from_kbct_event(&output[i]));
            i = i + 1;
            assert(out@ =~= output@.subrange(0, i as int).map_values(|e: KbctEvent| wire_of(e)));
        }
        assert(output@.subrange(0, output@.len() as int) =~= output@);
        KeyMapEvent { input: KeyEvent::from_kbct_event(&input), output: out }
    }
}

} // verus!

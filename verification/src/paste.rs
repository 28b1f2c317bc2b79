//! Pasting a chosen text into the window that was in front before the menu opened.
//!
//! The work itself (the clipboard, focusing a window, sending keys, waiting) is done by the
//! caller; `PasteFlow` decides, event by event, what comes next. While a paste runs, the
//! clipboard watcher must ignore the clipboard changes it causes: the flow raises a
//! "writing" flag first and lowers it on every way out.
use vstd::prelude::*;

verus! {

/// The handle of the window in front. Where no window system is at hand there is none: 0.
pub fn capture_foreground() -> (hwnd: isize)
    ensures
        hwnd == 0,
{
    0
}

/// How long to wait for the focus to move before pasting, in milliseconds.
pub const FOCUS_WAIT_MS: u64 = 50;

/// How long to wait after pasting before the clipboard watcher listens again, in milliseconds.
pub const SETTLE_WAIT_MS: u64 = 150;

/// Where a paste stands.
#[derive(Debug, Clone, Copy, PartialEq, Eq, Structural)]
pub enum PasteState {
    Idle,
    WritingClipboard,
    Focusing,
    WaitingForFocus,
    SendingKeys,
    WaitingToSettle,
    Finished,
}

/// What the caller reports back.
#[derive(Debug, Clone, Copy, PartialEq, Eq, Structural)]
pub enum PasteEvent {
    /// The paste is asked for.
    Start,
    /// The text was (`true`) or could not be (`false`) put on the clipboard.
    ClipboardWritten(bool),
    /// The window was brought to the front.
    Focused,
    /// The asked-for wait is over.
    Waited,
    /// The paste keystroke was sent.
    KeysSent,
}

/// What the caller does next.
#[derive(Debug, Clone, Copy, PartialEq, Eq, Structural)]
pub enum PasteAction {
    /// Raise the writing flag, then put the text on the clipboard.
    RaiseFlagAndWrite,
    /// Bring the window with this handle to the front.
    Focus(isize),
    /// Wait this many milliseconds.
    Wait(u64),
    /// Send Ctrl+V.
    SendPasteKeys,
    /// Lower the writing flag; the paste is over.
    LowerFlag,
    /// Nothing: the event does not apply in this state.
    Nothing,
}

/// The state that follows `state` on `event`, with the action to take, for a paste into the
/// window `hwnd` (0: none remembered).
pub open spec fn paste_step(state: PasteState, hwnd: isize, event: PasteEvent) -> (PasteState, PasteAction) {
    match (state, event) {
        (PasteState::Idle, PasteEvent::Start) => (PasteState::WritingClipboard, PasteAction::RaiseFlagAndWrite),
        (PasteState::WritingClipboard, PasteEvent::ClipboardWritten(false)) => (PasteState::Finished, PasteAction::LowerFlag),
        (PasteState::WritingClipboard, PasteEvent::ClipboardWritten(true)) => if hwnd != 0 {
            (PasteState::Focusing, PasteAction::Focus(hwnd))
        } else {
            (PasteState::WaitingForFocus, PasteAction::Wait(FOCUS_WAIT_MS))
        },
        (PasteState::Focusing, PasteEvent::Focused) => (PasteState::WaitingForFocus, PasteAction::Wait(FOCUS_WAIT_MS)),
        (PasteState::WaitingForFocus, PasteEvent::Waited) => (PasteState::SendingKeys, PasteAction::SendPasteKeys),
        (PasteState::SendingKeys, PasteEvent::KeysSent) => (PasteState::WaitingToSettle, PasteAction::Wait(SETTLE_WAIT_MS)),
        (PasteState::WaitingToSettle, PasteEvent::Waited) => (PasteState::Finished, PasteAction::LowerFlag),
        _ => (state, PasteAction::Nothing),
    }
}

/// The writing flag is raised in this state.
pub open spec fn flag_raised(state: PasteState) -> bool {
    state != PasteState::Idle && state != PasteState::Finished
}

/// One paste in progress.
pub struct PasteFlow {
    pub state: PasteState,
    pub hwnd: isize,
}

impl PasteFlow {
    /// A paste into the window `hwnd`, not yet started.
    pub fn new(hwnd: isize) -> (f: Self)
        ensures
            f.state == PasteState::Idle,
            f.hwnd == hwnd,
    {
        PasteFlow { state: PasteState::Idle, hwnd }
    }

    /// Takes in `event` and tells what to do next.
    pub fn step(&mut self, event: PasteEvent) -> (a: PasteAction)
        ensures
            (final(self).state, a) == paste_step(old(self).state, old(self).hwnd, event),
            final(self).hwnd == old(self).hwnd,
    {
        let (next, action) = match (self.state, event) {
            (PasteState::Idle, PasteEvent::Start) => (PasteState::WritingClipboard, PasteAction::RaiseFlagAndWrite),
            (PasteState::WritingClipboard, PasteEvent::ClipboardWritten(ok)) => if !ok {
                (PasteState::Finished, PasteAction::LowerFlag)
            } else if self.hwnd != 0 {
                (PasteState::Focusing, PasteAction::Focus(self.hwnd))
            } else {
                (PasteState::WaitingForFocus, PasteAction::Wait(FOCUS_WAIT_MS))
            },
            (PasteState::Focusing, PasteEvent::Focused) => (PasteState::WaitingForFocus, PasteAction::Wait(FOCUS_WAIT_MS)),
            (PasteState::WaitingForFocus, PasteEvent::Waited) => (PasteState::SendingKeys, PasteAction::SendPasteKeys),
            (PasteState::SendingKeys, PasteEvent::KeysSent) => (PasteState::WaitingToSettle, PasteAction::Wait(SETTLE_WAIT_MS)),
            (PasteState::WaitingToSettle, PasteEvent::Waited) => (PasteState::Finished, PasteAction::LowerFlag),
            _ => (self.state, PasteAction::Nothing),
        };
        self.state = next;
        action
    }
}

/// The flag is raised exactly when a paste starts and lowered exactly when it ends: a step
/// that raises it leaves `Idle`, a step that reaches `Finished` lowers it, and no other step
/// changes it.
pub proof fn lemma_paste_flag_balanced(state: PasteState, hwnd: isize, event: PasteEvent)
    ensures
        ({
            let (next, a) = paste_step(state, hwnd, event);
            &&& a == PasteAction::RaiseFlagAndWrite <==> (!flag_raised(state) && state != PasteState::Finished
                && flag_raised(next))
            &&& a == PasteAction::LowerFlag <==> (flag_raised(state) && !flag_raised(next))
            &&& (a != PasteAction::RaiseFlagAndWrite && a != PasteAction::LowerFlag) ==> flag_raised(next)
                == flag_raised(state)
            &&& next == PasteState::Finished && state != PasteState::Finished ==> a == PasteAction::LowerFlag
        }),
{
}

/// The event with which the caller answers `action` when the work it asks for is done:
/// `written` tells whether the text went onto the clipboard. `None` for an action that ends
/// the paste or asks for nothing.
pub open spec fn answer(action: PasteAction, written: bool) -> Option<PasteEvent> {
    match action {
        PasteAction::RaiseFlagAndWrite => Some(PasteEvent::ClipboardWritten(written)),
        PasteAction::Focus(_) => Some(PasteEvent::Focused),
        PasteAction::Wait(_) => Some(PasteEvent::Waited),
        PasteAction::SendPasteKeys => Some(PasteEvent::KeysSent),
        _ => None,
    }
}

/// The actions a paste into `hwnd` takes from `state` on `event` when the caller does each
/// action and answers it, for at most `steps` steps.
pub open spec fn paste_run(state: PasteState, hwnd: isize, event: PasteEvent, written: bool, steps: nat) -> Seq<
    PasteAction,
>
    decreases steps,
{
    if steps == 0 {
        Seq::empty()
    } else {
        let (next, a) = paste_step(state, hwnd, event);
        match answer(a, written) {
            Some(e) => seq![a] + paste_run(next, hwnd, e, written, (steps - 1) as nat),
            None => seq![a],
        }
    }
}

/// A whole paste, from `Start` with every action done and answered: the flag is raised and
/// the text written; when the write succeeded the window is focused (only when one is
/// remembered, `hwnd != 0`), the paste keystroke is sent after the focus wait in every case,
/// and the flag is lowered after the settle wait; when the write failed the flag is lowered
/// at once and no keystroke is sent.
pub proof fn lemma_paste_run(hwnd: isize, steps: nat)
    requires
        steps >= 6,
    ensures
        paste_run(PasteState::Idle, hwnd, PasteEvent::Start, true, steps) == if hwnd != 0 {
            seq![
                PasteAction::RaiseFlagAndWrite,
                PasteAction::Focus(hwnd),
                PasteAction::Wait(FOCUS_WAIT_MS),
                PasteAction::SendPasteKeys,
                PasteAction::Wait(SETTLE_WAIT_MS),
                PasteAction::LowerFlag,
            ]
        } else {
            seq![
                PasteAction::RaiseFlagAndWrite,
                PasteAction::Wait(FOCUS_WAIT_MS),
                PasteAction::SendPasteKeys,
                PasteAction::Wait(SETTLE_WAIT_MS),
                PasteAction::LowerFlag,
            ]
        },
        paste_run(PasteState::Idle, hwnd, PasteEvent::Start, false, steps) == seq![
            PasteAction::RaiseFlagAndWrite,
            PasteAction::LowerFlag,
        ],
{
    reveal_with_fuel(paste_run, 7);
    let t = paste_run(PasteState::Idle, hwnd, PasteEvent::Start, true, steps);
    let f = paste_run(PasteState::Idle, hwnd, PasteEvent::Start, false, steps);
    assert(f =~= seq![PasteAction::RaiseFlagAndWrite, PasteAction::LowerFlag]);
    if hwnd != 0 {
        assert(t =~= seq![
            PasteAction::RaiseFlagAndWrite,
            PasteAction::Focus(hwnd),
            PasteAction::Wait(FOCUS_WAIT_MS),
            PasteAction::SendPasteKeys,
            PasteAction::Wait(SETTLE_WAIT_MS),
            PasteAction::LowerFlag,
        ]);
    } else {
        assert(t =~= seq![
            PasteAction::RaiseFlagAndWrite,
            PasteAction::Wait(FOCUS_WAIT_MS),
            PasteAction::SendPasteKeys,
            PasteAction::Wait(SETTLE_WAIT_MS),
            PasteAction::LowerFlag,
        ]);
    }
}

/// Once the text is on the clipboard, the paste keystroke is sent before the flag is
/// lowered, whether or not a window is remembered: the run from `WritingClipboard` on a
/// successful write sends the keystroke exactly once and ends by lowering the flag.
pub proof fn lemma_written_paste_sends_keys(hwnd: isize, steps: nat)
    requires
        steps >= 5,
    ensures
        ({
            let run = paste_run(PasteState::WritingClipboard, hwnd, PasteEvent::ClipboardWritten(true), true, steps);
            &&& run.last() == PasteAction::LowerFlag
            &&& exists|k: int| 0 <= k < run.len() - 1 && run[k] == PasteAction::SendPasteKeys && forall|j: int|
                0 <= j < run.len() && j != k ==> run[j] != PasteAction::SendPasteKeys
            &&& forall|j: int| 0 <= j < run.len() - 1 ==> run[j] != PasteAction::LowerFlag
        }),
{
    reveal_with_fuel(paste_run, 6);
    let run = paste_run(PasteState::WritingClipboard, hwnd, PasteEvent::ClipboardWritten(true), true, steps);
    if hwnd != 0 {
        assert(run =~= seq![
            PasteAction::Focus(hwnd),
            PasteAction::Wait(FOCUS_WAIT_MS),
            PasteAction::SendPasteKeys,
            PasteAction::Wait(SETTLE_WAIT_MS),
            PasteAction::LowerFlag,
        ]);
        assert(run[2] == PasteAction::SendPasteKeys);
    } else {
        assert(run =~= seq![
            PasteAction::Wait(FOCUS_WAIT_MS),
            PasteAction::SendPasteKeys,
            PasteAction::Wait(SETTLE_WAIT_MS),
            PasteAction::LowerFlag,
        ]);
        assert(run[1] == PasteAction::SendPasteKeys);
    }
}

/// A key of the paste keystroke.
#[derive(Debug, Clone, Copy, PartialEq, Eq, Structural)]
pub enum PasteKey {
    Control,
    /// The character key `v`.
    V,
}

/// What is done with a key.
#[derive(Debug, Clone, Copy, PartialEq, Eq, Structural)]
pub enum KeyDirection {
    Press,
    Click,
    Release,
}

/// The keystroke that pastes: press Control, click `v`, release Control.
pub fn paste_keystrokes() -> (keys: Vec<(PasteKey, KeyDirection)>)
    ensures
        keys@ == seq![
            (PasteKey::Control, KeyDirection::Press),
            (PasteKey::V, KeyDirection::Click),
            (PasteKey::Control, KeyDirection::Release),
        ],
{
    let mut keys = Vec::new();
    keys.push((PasteKey::Control, KeyDirection::Press));
    keys.push((PasteKey::V, KeyDirection::Click));
    keys.push((PasteKey::Control, KeyDirection::Release));
    keys
}

/// The message the clipboard listener window gets when the clipboard changes.
pub const WM_CLIPBOARDUPDATE: u32 = 0x031D;

/// What the clipboard listener window does with a message.
#[derive(Debug, Clone, Copy, PartialEq, Eq, Structural)]
pub enum ListenerAction {
    /// Tell the recorder that the clipboard changed; answer 0.
    Notify,
    /// The change is the paste's own: answer 0 and tell no one.
    Ignore,
    /// Not a clipboard message: hand it to the default window procedure.
    Default,
}

/// How the listener window treats message `msg`, `writing` telling whether a paste has the
/// writing flag raised.
pub fn listener_action(msg: u32, writing: bool) -> (a: ListenerAction)
    ensures
        msg == WM_CLIPBOARDUPDATE && !writing ==> a == ListenerAction::Notify,
        msg == WM_CLIPBOARDUPDATE && writing ==> a == ListenerAction::Ignore,
        msg != WM_CLIPBOARDUPDATE ==> a == ListenerAction::Default,
{
    if msg == WM_CLIPBOARDUPDATE {
        if writing {
            ListenerAction::Ignore
        } else {
            ListenerAction::Notify
        }
    } else {
        ListenerAction::Default
    }
}

} // verus!

//! The threads that read the events of keyboards, mice and other input devices.
//!
//! Each thread is a state machine: it names the next thing to be done outside as a
//! request, and takes a step once the reply to that request is known.

use vstd::prelude::*;
use crate::text::{decimal, decimal_text};

verus! {

/// The kinds of devices that input is read from.
#[derive(Debug, Clone, Copy, PartialEq, Eq, Structural)]
pub enum InputKind {
    Keyboard,
    Mouse,
    Misc,
}

/// The codes of synchronization events.
#[derive(Debug, Clone, Copy, PartialEq, Eq, Structural)]
pub enum SynCode {
    Report,
    Config,
    MtReport,
    Dropped,
    Max,
}

/// The codes of relative motion events.
#[derive(Debug, Clone, Copy, PartialEq, Eq, Structural)]
pub enum RelCode {
    X,
    Y,
    Z,
    Rx,
    Ry,
    Rz,
    HWheel,
    Dial,
    Wheel,
    Misc,
    Reserved,
    WheelHiRes,
    HWheelHiRes,
    Max,
}

/// What an event is about. A key is given by its number.
#[derive(Debug, Clone, Copy, PartialEq, Eq, Structural)]
pub enum EventCode {
    Syn(SynCode),
    Key(u16),
    Rel(RelCode),
    Other,
}

/// An event of an input device.
#[derive(Debug, Clone, Copy, PartialEq, Eq, Structural)]
pub struct InputEvent {
    pub code: EventCode,
    pub value: i32,
}

/// What can go wrong with an input device.
#[derive(Debug, Clone, Copy, PartialEq, Eq, Structural)]
pub enum EvdevError {
    /// The device could not be found.
    UdevError,
    /// The device file could not be opened.
    EvdevError,
    /// No handle could be made from the device file.
    EvdevHandleError,
    /// No event could be read.
    EvdevEventError,
}

/// Why an input thread fails.
#[derive(Debug, Clone, Copy, PartialEq, Eq, Structural)]
pub enum InputError {
    Evdev(EvdevError),
    /// The state of the device could not be queried.
    Device,
    /// The device could not be synchronized after it dropped events.
    Resync,
}

/// How an input thread ends.
#[derive(Debug, Clone, Copy, PartialEq, Eq, Structural)]
pub enum InputOutcome {
    Finished,
    Failed(InputError),
}

/// Why the main loop has to be entered again.
#[derive(Debug, Clone, Copy, PartialEq, Eq, Structural)]
pub enum ReenterCause {
    /// The device reports that it has failed.
    FailedDevice,
    /// The device is not there any more.
    DeviceGone,
    /// Reading failed for another reason.
    ReadFailed,
}

/// What the thread asks for.
#[derive(Debug, Clone, Copy, PartialEq, Eq, Structural)]
pub enum InputRequest {
    /// Find the device file of the device with these USB ids. Reply: `Outcome`.
    FindDevice { usb_vid: u16, usb_pid: u16 },
    /// Open the device file. Reply: `Outcome`.
    OpenFile,
    /// Make a device handle from the file. Reply: `Outcome`.
    CreateHandle,
    /// Grab the device exclusively. Reply: `Outcome`.
    Grab,
    /// Shall the thread terminate? Reply: `Flag`.
    ReadQuit,
    /// Has the device failed? Reply: `Status`.
    ReadFailed,
    /// Wait for the next event. Reply: `Event` or `Fault`.
    Poll,
    /// Reset the flag by which the current input is dropped. Reply: `Done`.
    ResetDrop(InputEvent),
    /// The index of a key or button within the table of states. Reply: `Index`.
    FindIndex(InputEvent, u16),
    /// Note in the table of states whether a key or button is pressed. Reply: `Done`.
    SetState(InputEvent, usize, bool),
    /// Synchronize the device. Reply: `Outcome`.
    Resync(InputEvent),
    /// Is the mouse grabbed? Reply: `Flag`.
    ReadGrab(InputEvent),
    /// Mirror the event at once on the virtual device. Reply: `Outcome`.
    Mirror(InputEvent),
    /// Send the event to the main thread. Reply: `Outcome`.
    Forward(InputEvent),
    /// Note the time of the last input. Reply: `Done`.
    TouchTimer(InputEvent),
    /// Have the main loop entered again. Reply: `Done`.
    RequestReenter(ReenterCause),
    /// The thread ends.
    Stop(InputOutcome),
}

/// The replies to requests.
#[derive(Debug, Clone, Copy, PartialEq, Eq, Structural)]
pub enum InputReply {
    Done,
    Flag(bool),
    /// Did the operation succeed?
    Outcome(bool),
    /// A flag that could be queried, or not.
    Status(Option<bool>),
    /// An index, unless the key or button has none.
    Index(Option<usize>),
    Event(InputEvent),
    /// The error number of the operating system.
    Fault(i32),
}

/// The state of an input thread.
#[derive(Debug, Clone, Copy, PartialEq, Eq, Structural)]
pub struct InputThread {
    pub kind: InputKind,
    /// What the thread waits for.
    pub request: InputRequest,
}

/// The error number of a device that is not there.
pub const NO_SUCH_DEVICE: i32 = 19;

/// Reads the constant `libc::ENODEV`, which is 19 on Linux.
#[verifier::external_body]
fn enodev() -> (code: i32)
    ensures
        code == NO_SUCH_DEVICE,
{
    libc::ENODEV
}

/// What a failed read says about the device.
pub open spec fn fault_cause(os_error: i32) -> ReenterCause {
    if os_error == NO_SUCH_DEVICE {
        ReenterCause::DeviceGone
    } else {
        ReenterCause::ReadFailed
    }
}

/// The codes of the mouse wheels.
pub open spec fn is_wheel(code: RelCode) -> bool {
    code == RelCode::Wheel || code == RelCode::HWheel || code == RelCode::WheelHiRes || code
        == RelCode::HWheelHiRes
}

/// Is a mouse event mirrored without a detour through the main thread, to reduce input
/// lag? Pointer motion is, and so are the events that close a group of events.
pub open spec fn is_direct(code: EventCode) -> bool {
    match code {
        EventCode::Syn(code) => code != SynCode::Dropped,
        EventCode::Rel(code) => !is_wheel(code),
        _ => false,
    }
}

/// Is a key or button held down after an event?
pub open spec fn is_pressed(event: InputEvent) -> bool {
    event.value > 0
}

/// What a thread does first with an event.
pub open spec fn event_request(kind: InputKind, event: InputEvent) -> InputRequest {
    match kind {
        InputKind::Misc => InputRequest::Mirror(event),
        _ => InputRequest::ResetDrop(event),
    }
}

/// What a thread does with an event before it goes to the main thread.
pub open spec fn state_request(kind: InputKind, event: InputEvent) -> InputRequest {
    match event.code {
        EventCode::Key(key) => InputRequest::FindIndex(event, key),
        EventCode::Syn(SynCode::Dropped) if kind == InputKind::Mouse => InputRequest::Resync(
            event,
        ),
        code => if kind == InputKind::Mouse && is_direct(code) {
            InputRequest::ReadGrab(event)
        } else {
            InputRequest::Forward(event)
        },
    }
}

impl InputThread {
    /// A thread that is about to look for its device.
    pub open spec fn initial(kind: InputKind, usb_vid: u16, usb_pid: u16) -> InputThread {
        InputThread { kind, request: InputRequest::FindDevice { usb_vid, usb_pid } }
    }

    /// The same thread with another request.
    pub open spec fn ask(self, request: InputRequest) -> InputThread {
        InputThread { request, ..self }
    }

    /// A thread that ends with an error.
    pub open spec fn fail(self, error: InputError) -> InputThread {
        self.ask(InputRequest::Stop(InputOutcome::Failed(error)))
    }

    /// Goes on with one request if an operation succeeded, and fails otherwise.
    pub open spec fn open_step(
        self,
        reply: InputReply,
        request: InputRequest,
        error: EvdevError,
    ) -> InputThread {
        if reply == InputReply::Outcome(true) {
            self.ask(request)
        } else {
            self.fail(InputError::Evdev(error))
        }
    }

    /// Does a reply answer the request of the thread? Every key of a keyboard has an
    /// index.
    pub open spec fn fits(self, reply: InputReply) -> bool {
        match self.request {
            InputRequest::FindDevice { .. } => reply is Outcome,
            InputRequest::OpenFile => reply is Outcome,
            InputRequest::CreateHandle => reply is Outcome,
            InputRequest::Grab => reply is Outcome,
            InputRequest::ReadQuit => reply is Flag,
            InputRequest::ReadFailed => reply is Status,
            InputRequest::Poll => reply is Event || reply is Fault,
            InputRequest::ResetDrop(_) => reply is Done,
            InputRequest::FindIndex(_, _) => reply matches InputReply::Index(index) && (self.kind
                == InputKind::Keyboard ==> index is Some),
            InputRequest::SetState(_, _, _) => reply is Done,
            InputRequest::Resync(_) => reply is Outcome,
            InputRequest::ReadGrab(_) => reply is Flag,
            InputRequest::Mirror(_) => reply is Outcome,
            InputRequest::Forward(_) => reply is Outcome,
            InputRequest::TouchTimer(_) => reply is Done,
            InputRequest::RequestReenter(_) => reply is Done,
            InputRequest::Stop(_) => false,
        }
    }

    /// The state behind a reply.
    pub open spec fn next(self, reply: InputReply) -> InputThread {
        match self.request {
            InputRequest::FindDevice { .. } => self.open_step(
                reply,
                InputRequest::OpenFile,
                EvdevError::UdevError,
            ),
            InputRequest::OpenFile => self.open_step(
                reply,
                InputRequest::CreateHandle,
                EvdevError::EvdevError,
            ),
            InputRequest::CreateHandle => self.open_step(
                reply,
                InputRequest::Grab,
                EvdevError::EvdevHandleError,
            ),
            // a device that cannot be grabbed is used all the same
            InputRequest::Grab => self.ask(InputRequest::ReadQuit),
            InputRequest::ReadQuit => self.ask(
                if reply == InputReply::Flag(true) {
                    InputRequest::Stop(InputOutcome::Finished)
                } else if self.kind == InputKind::Keyboard {
                    InputRequest::ReadFailed
                } else {
                    InputRequest::Poll
                },
            ),
            InputRequest::ReadFailed => match reply->Status_0 {
                Some(true) => self.ask(InputRequest::RequestReenter(ReenterCause::FailedDevice)),
                Some(false) => self.ask(InputRequest::Poll),
                None => self.fail(InputError::Device),
            },
            InputRequest::Poll => match reply {
                InputReply::Event(event) => self.ask(event_request(self.kind, event)),
                _ => self.ask(InputRequest::RequestReenter(fault_cause(reply->Fault_0))),
            },
            InputRequest::ResetDrop(event) => self.ask(state_request(self.kind, event)),
            InputRequest::FindIndex(event, _) => self.ask(
                match reply->Index_0 {
                    Some(index) => InputRequest::SetState(event, index, is_pressed(event)),
                    None => InputRequest::Forward(event),
                },
            ),
            InputRequest::SetState(event, _, _) => self.ask(InputRequest::Forward(event)),
            InputRequest::Resync(event) => if reply == InputReply::Outcome(true) {
                self.ask(InputRequest::Forward(event))
            } else {
                self.fail(InputError::Resync)
            },
            InputRequest::ReadGrab(event) => self.ask(
                if reply == InputReply::Flag(true) {
                    InputRequest::Mirror(event)
                } else {
                    InputRequest::Forward(event)
                },
            ),
            InputRequest::Mirror(event) => self.ask(InputRequest::Forward(event)),
            InputRequest::Forward(event) => self.ask(InputRequest::TouchTimer(event)),
            InputRequest::TouchTimer(_) => self.ask(InputRequest::ReadQuit),
            InputRequest::RequestReenter(cause) => match cause {
                ReenterCause::FailedDevice => self.ask(InputRequest::Stop(InputOutcome::Finished)),
                _ => self.fail(InputError::Evdev(EvdevError::EvdevEventError)),
            },
            InputRequest::Stop(_) => self,
        }
    }

    /// What holds of the thread at all times: each kind of device makes only the requests
    /// that are meant for it, and only about events that call for them.
    pub open spec fn wf(self) -> bool {
        match self.request {
            InputRequest::ReadFailed => self.kind == InputKind::Keyboard,
            InputRequest::ResetDrop(_) => self.kind != InputKind::Misc,
            InputRequest::FindIndex(event, key) => self.kind != InputKind::Misc && event.code
                == EventCode::Key(key),
            InputRequest::SetState(event, _, pressed) => self.kind != InputKind::Misc && event.code
                is Key && pressed == is_pressed(event),
            InputRequest::Resync(event) => self.kind == InputKind::Mouse && event.code
                == EventCode::Syn(SynCode::Dropped),
            InputRequest::ReadGrab(event) => self.kind == InputKind::Mouse && is_direct(event.code),
            InputRequest::Mirror(event) => self.kind == InputKind::Misc || (self.kind
                == InputKind::Mouse && is_direct(event.code)),
            InputRequest::RequestReenter(ReenterCause::FailedDevice) => self.kind
                == InputKind::Keyboard,
            InputRequest::Stop(InputOutcome::Failed(InputError::Device)) => self.kind
                == InputKind::Keyboard,
            InputRequest::Stop(InputOutcome::Failed(InputError::Resync)) => self.kind
                == InputKind::Mouse,
            _ => true,
        }
    }

    /// Do all replies answer the requests that the thread makes one after the other?
    pub open spec fn accepts(self, replies: Seq<InputReply>) -> bool
        decreases replies.len(),
    {
        replies.len() == 0 || (self.accepts(replies.drop_last()) && self.run(
            replies.drop_last(),
        ).fits(replies.last()))
    }

    /// The state behind a sequence of replies.
    pub open spec fn run(self, replies: Seq<InputReply>) -> InputThread
        decreases replies.len(),
    {
        if replies.len() == 0 {
            self
        } else {
            self.run(replies.drop_last()).next(replies.last())
        }
    }

    /// The requests that the thread makes behind each of a sequence of replies.
    pub open spec fn trace(self, replies: Seq<InputReply>) -> Seq<InputRequest> {
        Seq::new(replies.len(), |i: int| self.run(replies.take(i + 1)).request)
    }

    /// Starts a thread for the device with the given USB ids.
    pub fn new(kind: InputKind, usb_vid: u16, usb_pid: u16) -> (thread: InputThread)
        ensures
            thread == Self::initial(kind, usb_vid, usb_pid),
            thread.wf(),
    {
        InputThread { kind, request: InputRequest::FindDevice { usb_vid, usb_pid } }
    }

    fn handle_fault(&mut self, os_error: i32)
        ensures
            *final(self) == old(self).ask(InputRequest::RequestReenter(fault_cause(os_error))),
    {
        let cause = if os_error == enodev() {
            ReenterCause::DeviceGone
        } else {
            ReenterCause::ReadFailed
        };
        self.request = InputRequest::RequestReenter(cause);
    }

    fn handle_event(&mut self, event: InputEvent)
        ensures
            *final(self) == old(self).ask(state_request(old(self).kind, event)),
    {
        let mouse = self.kind == InputKind::Mouse;
        self.request = match event.code {
            EventCode::Key(key) => InputRequest::FindIndex(event, key),
            EventCode::Syn(code) => if mouse {
                if code == SynCode::Dropped {
                    InputRequest::Resync(event)
                } else {
                    InputRequest::ReadGrab(event)
                }
            } else {
                InputRequest::Forward(event)
            },
            EventCode::Rel(code) => if mouse && code != RelCode::Wheel && code != RelCode::HWheel
                && code != RelCode::WheelHiRes && code != RelCode::HWheelHiRes {
                InputRequest::ReadGrab(event)
            } else {
                InputRequest::Forward(event)
            },
            EventCode::Other => InputRequest::Forward(event),
        };
    }

    /// Takes the step that the reply to the current request calls for.
    pub fn step(&mut self, reply: InputReply)
        requires
            old(self).wf(),
            old(self).fits(reply),
        ensures
            *final(self) == old(self).next(reply),
            final(self).wf(),
    {
        match (self.request, reply) {
            (InputRequest::FindDevice { .. }, InputReply::Outcome(found)) => {
                self.request = if found {
                    InputRequest::OpenFile
                } else {
                    InputRequest::Stop(
                        InputOutcome::Failed(InputError::Evdev(EvdevError::UdevError)),
                    )
                };
            },
            (InputRequest::OpenFile, InputReply::Outcome(opened)) => {
                self.request = if opened {
                    InputRequest::CreateHandle
                } else {
                    InputRequest::Stop(
                        InputOutcome::Failed(InputError::Evdev(EvdevError::EvdevError)),
                    )
                };
            },
            (InputRequest::CreateHandle, InputReply::Outcome(created)) => {
                self.request = if created {
                    InputRequest::Grab
                } else {
                    InputRequest::Stop(
                        InputOutcome::Failed(InputError::Evdev(EvdevError::EvdevHandleError)),
                    )
                };
            },
            (InputRequest::Grab, InputReply::Outcome(_)) => {
                self.request = InputRequest::ReadQuit;
            },
            (InputRequest::ReadQuit, InputReply::Flag(quit)) => {
                self.request = if quit {
                    InputRequest::Stop(InputOutcome::Finished)
                } else if self.kind == InputKind::Keyboard {
                    InputRequest::ReadFailed
                } else {
                    InputRequest::Poll
                };
            },
            (InputRequest::ReadFailed, InputReply::Status(failed)) => {
                self.request = match failed {
                    Some(true) => InputRequest::RequestReenter(ReenterCause::FailedDevice),
                    Some(false) => InputRequest::Poll,
                    None => InputRequest::Stop(InputOutcome::Failed(InputError::Device)),
                };
            },
            (InputRequest::Poll, InputReply::Event(event)) => {
                self.request = match self.kind {
                    InputKind::Misc => InputRequest::Mirror(event),
                    _ => InputRequest::ResetDrop(event),
                };
            },
            (InputRequest::Poll, InputReply::Fault(os_error)) => {
                self.handle_fault(os_error);
            },
            (InputRequest::ResetDrop(event), InputReply::Done) => {
                self.handle_event(event);
            },
            (InputRequest::FindIndex(event, _), InputReply::Index(index)) => {
                self.request = match index {
                    Some(index) => InputRequest::SetState(event, index, event.value > 0),
                    None => InputRequest::Forward(event),
                };
            },
            (InputRequest::SetState(event, _, _), InputReply::Done) => {
                self.request = InputRequest::Forward(event);
            },
            (InputRequest::Resync(event), InputReply::Outcome(synchronized)) => {
                self.request = if synchronized {
                    InputRequest::Forward(event)
                } else {
                    InputRequest::Stop(InputOutcome::Failed(InputError::Resync))
                };
            },
            (InputRequest::ReadGrab(event), InputReply::Flag(grabbed)) => {
                self.request = if grabbed {
                    InputRequest::Mirror(event)
                } else {
                    InputRequest::Forward(event)
                };
            },
            (InputRequest::Mirror(event), InputReply::Outcome(_)) => {
                self.request = InputRequest::Forward(event);
            },
            (InputRequest::Forward(event), InputReply::Outcome(_)) => {
                self.request = InputRequest::TouchTimer(event);
            },
            (InputRequest::TouchTimer(_), InputReply::Done) => {
                self.request = InputRequest::ReadQuit;
            },
            (InputRequest::RequestReenter(cause), InputReply::Done) => {
                self.request = match cause {
                    ReenterCause::FailedDevice => InputRequest::Stop(InputOutcome::Finished),
                    _ => InputRequest::Stop(
                        InputOutcome::Failed(InputError::Evdev(EvdevError::EvdevEventError)),
                    ),
                };
            },
            _ => {},
        }
    }
}

/// What the name of an input thread starts with.
pub open spec fn name_prefix(kind: InputKind) -> Seq<char> {
    match kind {
        InputKind::Keyboard => "events/kbd:"@,
        InputKind::Mouse => "events/mouse:"@,
        InputKind::Misc => "events/misc:"@,
    }
}

/// The name of the thread that reads the events of a device.
pub fn thread_name(kind: InputKind, device_index: usize) -> (name: String)
    ensures
        name@ == name_prefix(kind) + decimal(device_index as nat),
{
    let prefix = match kind {
        InputKind::Keyboard => "events/kbd:",
        InputKind::Mouse => "events/mouse:",
        InputKind::Misc => "events/misc:",
    };
    prefix.to_owned().concat(decimal_text(device_index).as_str())
}

/// Notes in a table of key or button states whether one of them is pressed.
pub fn record_press(states: &mut Vec<bool>, index: usize, pressed: bool)
    requires
        index < old(states)@.len(),
    ensures
        final(states)@ == old(states)@.update(index as int, pressed),
{
    states.set(index, pressed);
}

/// A table of states after a sequence of changes.
pub open spec fn pressed_after(states: Seq<bool>, changes: Seq<(usize, bool)>) -> Seq<bool>
    decreases changes.len(),
{
    if changes.len() == 0 {
        states
    } else {
        pressed_after(states, changes.drop_last()).update(
            changes.last().0 as int,
            changes.last().1,
        )
    }
}

/// The table of states holds for each key what the last change of that key said.
pub proof fn law_last_change_counts(states: Seq<bool>, changes: Seq<(usize, bool)>, last: int)
    requires
        forall|i: int| 0 <= i < changes.len() ==> (#[trigger] changes[i]).0 < states.len(),
        0 <= last < changes.len(),
        forall|i: int| last < i < changes.len() ==> (#[trigger] changes[i]).0 != changes[last].0,
    ensures
        pressed_after(states, changes)[changes[last].0 as int] == changes[last].1,
    decreases changes.len(),
{
    let front = changes.drop_last();
    lemma_states_len(states, front);
    if last < front.len() {
        assert(changes[changes.len() - 1].0 != changes[last].0);
        law_last_change_counts(states, front, last);
    }
}

/// A key without a change keeps the state that it had.
pub proof fn law_unchanged_keys_stay(states: Seq<bool>, changes: Seq<(usize, bool)>, index: int)
    requires
        forall|i: int| 0 <= i < changes.len() ==> (#[trigger] changes[i]).0 < states.len(),
        0 <= index < states.len(),
        forall|i: int| 0 <= i < changes.len() ==> (#[trigger] changes[i]).0 != index,
    ensures
        pressed_after(states, changes)[index] == states[index],
    decreases changes.len(),
{
    if changes.len() > 0 {
        let front = changes.drop_last();
        lemma_states_len(states, front);
        assert(changes[changes.len() - 1].0 != index);
        law_unchanged_keys_stay(states, front, index);
    }
}

/// Changes keep the size of the table.
proof fn lemma_states_len(states: Seq<bool>, changes: Seq<(usize, bool)>)
    requires
        forall|i: int| 0 <= i < changes.len() ==> (#[trigger] changes[i]).0 < states.len(),
    ensures
        pressed_after(states, changes).len() == states.len(),
    decreases changes.len(),
{
    if changes.len() > 0 {
        lemma_states_len(states, changes.drop_last());
        assert(changes[changes.len() - 1].0 < states.len());
    }
}

/// A step keeps what holds of the thread at all times.
proof fn lemma_next_wf(thread: InputThread, reply: InputReply)
    requires
        thread.wf(),
        thread.fits(reply),
    ensures
        thread.next(reply).wf(),
        thread.next(reply).kind == thread.kind,
{
}

/// Whatever the replies are, the thread makes only requests that its kind of device and
/// the event call for. In particular wheel events are never mirrored directly, only a
/// keyboard is asked whether it has failed, and a state is set to pressed just for a
/// positive value.
pub proof fn law_runs_stay_well_formed(thread: InputThread, replies: Seq<InputReply>)
    requires
        thread.wf(),
        thread.accepts(replies),
    ensures
        thread.run(replies).wf(),
        thread.run(replies).kind == thread.kind,
    decreases replies.len(),
{
    if replies.len() > 0 {
        let front = replies.drop_last();
        law_runs_stay_well_formed(thread, front);
        lemma_next_wf(thread.run(front), replies.last());
    }
}

/// The requests that an event gives rise to, in order, up to the next look at the quit flag.
/// `index` is the index of the key or button, and `grabbed` says whether the mouse is
/// grabbed.
pub open spec fn reaction(
    kind: InputKind,
    event: InputEvent,
    index: Option<usize>,
    grabbed: bool,
) -> Seq<InputRequest> {
    let closing = seq![
        InputRequest::Forward(event),
        InputRequest::TouchTimer(event),
        InputRequest::ReadQuit,
    ];
    if kind == InputKind::Misc {
        seq![InputRequest::Mirror(event)] + closing
    } else {
        seq![InputRequest::ResetDrop(event)] + (match event.code {
            EventCode::Key(key) => seq![InputRequest::FindIndex(event, key)] + (match index {
                Some(index) => seq![InputRequest::SetState(event, index, is_pressed(event))],
                None => Seq::empty(),
            }),
            code => if kind == InputKind::Mouse && code == EventCode::Syn(SynCode::Dropped) {
                seq![InputRequest::Resync(event)]
            } else if kind == InputKind::Mouse && is_direct(code) {
                seq![InputRequest::ReadGrab(event)] + (if grabbed {
                    seq![InputRequest::Mirror(event)]
                } else {
                    Seq::empty()
                })
            } else {
                Seq::empty()
            },
        }) + closing
    }
}

/// The reply to a request of a reaction. `mirrored` and `sent` say whether the event could
/// be mirrored and sent to the main thread.
pub open spec fn answer(
    request: InputRequest,
    index: Option<usize>,
    grabbed: bool,
    mirrored: bool,
    sent: bool,
) -> InputReply {
    match request {
        InputRequest::FindIndex(_, _) => InputReply::Index(index),
        InputRequest::Resync(_) => InputReply::Outcome(true),
        InputRequest::ReadGrab(_) => InputReply::Flag(grabbed),
        InputRequest::Mirror(_) => InputReply::Outcome(mirrored),
        InputRequest::Forward(_) => InputReply::Outcome(sent),
        _ => InputReply::Done,
    }
}

/// An event, and the replies to the requests that it gives rise to.
pub open spec fn event_replies(
    kind: InputKind,
    event: InputEvent,
    index: Option<usize>,
    grabbed: bool,
    mirrored: bool,
    sent: bool,
) -> Seq<InputReply> {
    let requests = reaction(kind, event, index, grabbed);
    Seq::new(
        requests.len(),
        |i: int|
            if i == 0 {
                InputReply::Event(event)
            } else {
                answer(requests[i - 1], index, grabbed, mirrored, sent)
            },
    )
}

/// Each request of a reaction leads to the one behind it.
proof fn lemma_reaction_step(
    thread: InputThread,
    event: InputEvent,
    index: Option<usize>,
    grabbed: bool,
    mirrored: bool,
    sent: bool,
    i: int,
)
    requires
        thread.kind == InputKind::Keyboard ==> index is Some,
        0 <= i < reaction(thread.kind, event, index, grabbed).len() - 1,
    ensures
        ({
            let requests = reaction(thread.kind, event, index, grabbed);
            let reply = answer(requests[i], index, grabbed, mirrored, sent);
            &&& thread.ask(requests[i]).fits(reply)
            &&& thread.ask(requests[i]).next(reply) == thread.ask(requests[i + 1])
        }),
{
    let requests = reaction(thread.kind, event, index, grabbed);
    if thread.kind == InputKind::Misc {
        assert(requests.len() == 4);
    } else {
        match event.code {
            EventCode::Key(key) => {
                assert(requests[1] == InputRequest::FindIndex(event, key));
            },
            code => {
                assert(requests[0] == InputRequest::ResetDrop(event));
            },
        }
    }
}

/// An event that is read gives rise to exactly the requests of its reaction, whether it
/// can be mirrored and sent or not. So it is forwarded exactly once and unchanged, and the
/// time of the last input is noted behind that.
pub proof fn law_event_is_handled(
    thread: InputThread,
    event: InputEvent,
    index: Option<usize>,
    grabbed: bool,
    mirrored: bool,
    sent: bool,
)
    requires
        thread.request == InputRequest::Poll,
        thread.kind == InputKind::Keyboard ==> index is Some,
    ensures
        ({
            let replies = event_replies(thread.kind, event, index, grabbed, mirrored, sent);
            &&& thread.accepts(replies)
            &&& thread.trace(replies) == reaction(thread.kind, event, index, grabbed)
        }),
{
    let replies = event_replies(thread.kind, event, index, grabbed, mirrored, sent);
    let requests = reaction(thread.kind, event, index, grabbed);
    assert forall|i: int| 0 <= i < replies.len() implies {
        &&& thread.accepts(#[trigger] replies.take(i + 1))
        &&& thread.run(replies.take(i + 1)) == thread.ask(requests[i])
    } by {
        lemma_handled_prefix(thread, event, index, grabbed, mirrored, sent, i);
    }
    assert(thread.trace(replies) =~= requests);
    assert(replies.take(replies.len() as int) =~= replies);
    lemma_handled_prefix(thread, event, index, grabbed, mirrored, sent, replies.len() - 1);
}

proof fn lemma_handled_prefix(
    thread: InputThread,
    event: InputEvent,
    index: Option<usize>,
    grabbed: bool,
    mirrored: bool,
    sent: bool,
    i: int,
)
    requires
        thread.request == InputRequest::Poll,
        thread.kind == InputKind::Keyboard ==> index is Some,
        0 <= i < reaction(thread.kind, event, index, grabbed).len(),
    ensures
        ({
            let replies = event_replies(thread.kind, event, index, grabbed, mirrored, sent);
            let requests = reaction(thread.kind, event, index, grabbed);
            &&& thread.accepts(replies.take(i + 1))
            &&& thread.run(replies.take(i + 1)) == thread.ask(requests[i])
        }),
    decreases i,
{
    let replies = event_replies(thread.kind, event, index, grabbed, mirrored, sent);
    let requests = reaction(thread.kind, event, index, grabbed);
    assert(replies.take(i + 1).drop_last() =~= replies.take(i));
    if i == 0 {
        assert(replies.take(0) =~= Seq::empty());
        assert(thread.run(replies.take(0)) == thread);
        assert(thread.accepts(replies.take(0)));
        assert(requests[0] == event_request(thread.kind, event));
    } else {
        lemma_handled_prefix(thread, event, index, grabbed, mirrored, sent, i - 1);
        lemma_reaction_step(thread, event, index, grabbed, mirrored, sent, i - 1);
    }
}

/// The events that were read, in order.
pub open spec fn events_read(replies: Seq<InputReply>) -> Seq<InputEvent>
    decreases replies.len(),
{
    if replies.len() == 0 {
        Seq::empty()
    } else {
        let front = events_read(replies.drop_last());
        match replies.last() {
            InputReply::Event(event) => front.push(event),
            _ => front,
        }
    }
}

/// The events that were to be sent to the main thread, in order.
pub open spec fn events_forwarded(thread: InputThread, replies: Seq<InputReply>) -> Seq<InputEvent>
    decreases replies.len(),
{
    if replies.len() == 0 {
        Seq::empty()
    } else {
        let front = events_forwarded(thread, replies.drop_last());
        match thread.run(replies).request {
            InputRequest::Forward(event) => front.push(event),
            _ => front,
        }
    }
}

/// The events that were to be mirrored, in order.
pub open spec fn events_mirrored(thread: InputThread, replies: Seq<InputReply>) -> Seq<InputEvent>
    decreases replies.len(),
{
    if replies.len() == 0 {
        Seq::empty()
    } else {
        let front = events_mirrored(thread, replies.drop_last());
        match thread.run(replies).request {
            InputRequest::Mirror(event) => front.push(event),
            _ => front,
        }
    }
}

/// The event that was read but is not forwarded yet.
pub open spec fn in_progress(request: InputRequest) -> Seq<InputEvent> {
    match request {
        InputRequest::ResetDrop(event) => seq![event],
        InputRequest::FindIndex(event, _) => seq![event],
        InputRequest::SetState(event, _, _) => seq![event],
        InputRequest::Resync(event) => seq![event],
        InputRequest::ReadGrab(event) => seq![event],
        InputRequest::Mirror(event) => seq![event],
        _ => Seq::empty(),
    }
}

/// Every event that is read is forwarded exactly once and unchanged, in the order of reading,
/// and nothing else is; the last one may still be in progress. Only an event for which the
/// device could not be synchronized is not forwarded, and it is the last one.
pub proof fn law_events_are_forwarded(
    kind: InputKind,
    usb_vid: u16,
    usb_pid: u16,
    replies: Seq<InputReply>,
)
    requires
        InputThread::initial(kind, usb_vid, usb_pid).accepts(replies),
    ensures
        ({
            let thread = InputThread::initial(kind, usb_vid, usb_pid);
            let request = thread.run(replies).request;
            let forwarded = events_forwarded(thread, replies);
            let read = events_read(replies);
            if request == InputRequest::Stop(InputOutcome::Failed(InputError::Resync)) {
                read.len() > 0 && read.drop_last() == forwarded
            } else {
                read == forwarded + in_progress(request)
            }
        }),
    decreases replies.len(),
{
    if replies.len() > 0 {
        let thread = InputThread::initial(kind, usb_vid, usb_pid);
        let front = replies.drop_last();
        law_events_are_forwarded(kind, usb_vid, usb_pid, front);
        lemma_event_progress(thread.run(front), replies.last());
        let forwarded = events_forwarded(thread, front);
        let pending = in_progress(thread.run(front).request);
        if pending.len() == 0 {
            assert(forwarded + pending =~= forwarded);
        } else {
            assert(forwarded + pending =~= forwarded.push(pending[0]));
        }
    }
}

/// What a step does to the event in progress: an event is read while there is none, it is kept
/// until it is forwarded, and it is lost only if the device cannot be synchronized.
proof fn lemma_event_progress(thread: InputThread, reply: InputReply)
    requires
        thread.fits(reply),
    ensures
        ({
            let before = in_progress(thread.request);
            let after = thread.next(reply).request;
            match reply {
                InputReply::Event(event) => before.len() == 0 && in_progress(after) == seq![event]
                    && !(after is Forward) && thread.request == InputRequest::Poll,
                _ => match after {
                    InputRequest::Forward(event) => before == seq![event],
                    InputRequest::Stop(InputOutcome::Failed(InputError::Resync)) => before.len()
                        == 1,
                    _ => in_progress(after) == before,
                },
            }
        }),
        thread.request != InputRequest::Stop(InputOutcome::Failed(InputError::Resync)),
{
    match thread.request {
        InputRequest::FindDevice { .. } => {},
        InputRequest::ReadQuit => {},
        InputRequest::ReadFailed => {},
        InputRequest::Poll => {},
        InputRequest::ResetDrop(_) => {},
        InputRequest::FindIndex(_, _) => {},
        InputRequest::Resync(_) => {},
        InputRequest::ReadGrab(_) => {},
        _ => {},
    }
}

/// Every event of a misc device is mirrored, in the order of reading, and just before it is
/// forwarded.
pub proof fn law_misc_events_are_mirrored(
    usb_vid: u16,
    usb_pid: u16,
    replies: Seq<InputReply>,
)
    requires
        InputThread::initial(InputKind::Misc, usb_vid, usb_pid).accepts(replies),
    ensures
        ({
            let thread = InputThread::initial(InputKind::Misc, usb_vid, usb_pid);
            &&& events_mirrored(thread, replies) == events_read(replies)
            &&& thread.run(replies).request matches InputRequest::Forward(event) ==> {
                &&& replies.len() > 0
                &&& thread.run(replies.drop_last()).request == InputRequest::Mirror(event)
            }
        }),
    decreases replies.len(),
{
    if replies.len() > 0 {
        let thread = InputThread::initial(InputKind::Misc, usb_vid, usb_pid);
        let front = replies.drop_last();
        law_misc_events_are_mirrored(usb_vid, usb_pid, front);
        law_runs_stay_well_formed(thread, front);
    }
}

/// Whatever error number a failed read has, the main loop is entered again and the thread
/// ends with an event error. The number tells only whether the device is gone.
pub proof fn law_lost_device_reenters(thread: InputThread, os_error: i32)
    requires
        thread.request == InputRequest::Poll,
    ensures
        thread.next(InputReply::Fault(os_error)).request == InputRequest::RequestReenter(
            fault_cause(os_error),
        ),
        thread.next(InputReply::Fault(os_error)).next(InputReply::Done) == thread.fail(
            InputError::Evdev(EvdevError::EvdevEventError),
        ),
{
}

/// The replies while a device is opened: whether the device was found, its file opened, a
/// handle made and the device grabbed.
pub open spec fn open_replies(
    found: bool,
    opened: bool,
    created: bool,
    grabbed: bool,
) -> Seq<InputReply> {
    let first = seq![InputReply::Outcome(found)];
    if !found {
        first
    } else if !opened {
        first.push(InputReply::Outcome(opened))
    } else if !created {
        first.push(InputReply::Outcome(opened)).push(InputReply::Outcome(created))
    } else {
        first.push(InputReply::Outcome(opened)).push(InputReply::Outcome(created)).push(
            InputReply::Outcome(grabbed),
        )
    }
}

/// Opening a device fails with the error of the first operation that fails. Whether the
/// device can be grabbed makes no difference.
pub proof fn law_open_reports_first_error(
    kind: InputKind,
    usb_vid: u16,
    usb_pid: u16,
    found: bool,
    opened: bool,
    created: bool,
    grabbed: bool,
)
    ensures
        ({
            let thread = InputThread::initial(kind, usb_vid, usb_pid);
            let replies = open_replies(found, opened, created, grabbed);
            &&& thread.accepts(replies)
            &&& thread.run(replies) == (if !found {
                thread.fail(InputError::Evdev(EvdevError::UdevError))
            } else if !opened {
                thread.fail(InputError::Evdev(EvdevError::EvdevError))
            } else if !created {
                thread.fail(InputError::Evdev(EvdevError::EvdevHandleError))
            } else {
                thread.ask(InputRequest::ReadQuit)
            })
        }),
{
    let thread = InputThread::initial(kind, usb_vid, usb_pid);
    let none = Seq::<InputReply>::empty();
    let first = none.push(InputReply::Outcome(found));
    let second = first.push(InputReply::Outcome(opened));
    let third = second.push(InputReply::Outcome(created));
    assert(seq![InputReply::Outcome(found)] =~= first);
    assert(thread.run(none) == thread);
    assert(thread.accepts(none));
    lemma_run_push(thread, none, InputReply::Outcome(found));
    lemma_run_push(thread, first, InputReply::Outcome(opened));
    lemma_run_push(thread, second, InputReply::Outcome(created));
    lemma_run_push(thread, third, InputReply::Outcome(grabbed));
}

/// One more reply is one more step.
proof fn lemma_run_push(thread: InputThread, replies: Seq<InputReply>, reply: InputReply)
    ensures
        thread.run(replies.push(reply)) == thread.run(replies).next(reply),
        thread.accepts(replies.push(reply)) <==> thread.accepts(replies) && thread.run(
            replies,
        ).fits(reply),
{
    assert(replies.push(reply).drop_last() =~= replies);
}

/// A thread begins by looking for the device with its USB ids.
pub proof fn law_thread_begins_with_its_device(kind: InputKind, usb_vid: u16, usb_pid: u16)
    ensures
        InputThread::initial(kind, usb_vid, usb_pid) == (InputThread {
            kind,
            request: InputRequest::FindDevice { usb_vid, usb_pid },
        }),
        InputThread::initial(kind, usb_vid, usb_pid).wf(),
{
}

/// The device is found, its file opened and a handle made, one after the other, and what fails
/// ends the thread with an error of its own. Grabbing the device may fail.
pub proof fn law_device_is_opened_in_steps(thread: InputThread, grabbed: bool)
    ensures
        thread.request is FindDevice ==> {
            &&& thread.fits(InputReply::Outcome(true))
            &&& thread.next(InputReply::Outcome(true)) == (InputThread {
                request: InputRequest::OpenFile,
                ..thread
            })
            &&& thread.fits(InputReply::Outcome(false))
            &&& thread.next(InputReply::Outcome(false)) == (InputThread {
                request: InputRequest::Stop(
                    InputOutcome::Failed(InputError::Evdev(EvdevError::UdevError)),
                ),
                ..thread
            })
        },
        thread.request == InputRequest::OpenFile ==> {
            &&& thread.fits(InputReply::Outcome(true))
            &&& thread.next(InputReply::Outcome(true)) == (InputThread {
                request: InputRequest::CreateHandle,
                ..thread
            })
            &&& thread.fits(InputReply::Outcome(false))
            &&& thread.next(InputReply::Outcome(false)) == (InputThread {
                request: InputRequest::Stop(
                    InputOutcome::Failed(InputError::Evdev(EvdevError::EvdevError)),
                ),
                ..thread
            })
        },
        thread.request == InputRequest::CreateHandle ==> {
            &&& thread.fits(InputReply::Outcome(true))
            &&& thread.next(InputReply::Outcome(true)) == (InputThread {
                request: InputRequest::Grab,
                ..thread
            })
            &&& thread.fits(InputReply::Outcome(false))
            &&& thread.next(InputReply::Outcome(false)) == (InputThread {
                request: InputRequest::Stop(
                    InputOutcome::Failed(InputError::Evdev(EvdevError::EvdevHandleError)),
                ),
                ..thread
            })
        },
        thread.request == InputRequest::Grab ==> {
            &&& thread.fits(InputReply::Outcome(grabbed))
            &&& thread.next(InputReply::Outcome(grabbed)) == (InputThread {
                request: InputRequest::ReadQuit,
                ..thread
            })
        },
{
}

/// The quit flag ends the thread. Without it the next event is awaited; a keyboard is asked
/// before whether it has failed, and ends the thread if it has, or if it cannot tell.
pub proof fn law_thread_runs_until_quit(thread: InputThread)
    ensures
        thread.request == InputRequest::ReadQuit ==> {
            &&& thread.fits(InputReply::Flag(true))
            &&& thread.next(InputReply::Flag(true)) == (InputThread {
                request: InputRequest::Stop(InputOutcome::Finished),
                ..thread
            })
            &&& thread.fits(InputReply::Flag(false))
            &&& thread.next(InputReply::Flag(false)) == (InputThread {
                request: if thread.kind == InputKind::Keyboard {
                    InputRequest::ReadFailed
                } else {
                    InputRequest::Poll
                },
                ..thread
            })
        },
        thread.request == InputRequest::ReadFailed ==> {
            &&& thread.fits(InputReply::Status(Some(false)))
            &&& thread.next(InputReply::Status(Some(false))) == (InputThread {
                request: InputRequest::Poll,
                ..thread
            })
            &&& thread.fits(InputReply::Status(Some(true)))
            &&& thread.next(InputReply::Status(Some(true))) == (InputThread {
                request: InputRequest::RequestReenter(ReenterCause::FailedDevice),
                ..thread
            })
            &&& thread.fits(InputReply::Status(None))
            &&& thread.next(InputReply::Status(None)) == (InputThread {
                request: InputRequest::Stop(InputOutcome::Failed(InputError::Device)),
                ..thread
            })
        },
        thread.request == InputRequest::RequestReenter(ReenterCause::FailedDevice) ==> {
            &&& thread.fits(InputReply::Done)
            &&& thread.next(InputReply::Done) == (InputThread {
                request: InputRequest::Stop(InputOutcome::Finished),
                ..thread
            })
        },
{
}

/// A read that fails with the error number 19 says that the device is gone, every other number
/// that it could not be read. Either way the main loop is entered again, and the thread ends
/// with an event error.
pub proof fn law_fault_ends_thread(thread: InputThread, os_error: i32)
    requires
        thread.request == InputRequest::Poll,
    ensures
        ({
            let asked = thread.next(InputReply::Fault(os_error));
            &&& thread.fits(InputReply::Fault(os_error))
            &&& asked == (InputThread {
                request: InputRequest::RequestReenter(
                    if os_error == 19 {
                        ReenterCause::DeviceGone
                    } else {
                        ReenterCause::ReadFailed
                    },
                ),
                ..thread
            })
            &&& asked.fits(InputReply::Done)
            &&& asked.next(InputReply::Done) == (InputThread {
                request: InputRequest::Stop(
                    InputOutcome::Failed(InputError::Evdev(EvdevError::EvdevEventError)),
                ),
                ..thread
            })
        }),
{
}

/// An event of a misc device is mirrored whatever it is about. For every other device the flag
/// by which input is dropped is reset first.
pub proof fn law_event_begins(thread: InputThread, event: InputEvent)
    requires
        thread.request == InputRequest::Poll,
    ensures
        thread.fits(InputReply::Event(event)),
        thread.next(InputReply::Event(event)) == (InputThread {
            request: if thread.kind == InputKind::Misc {
                InputRequest::Mirror(event)
            } else {
                InputRequest::ResetDrop(event)
            },
            ..thread
        }),
{
}

/// Motion of a mouse along any axis is mirrored at once just if the mouse is grabbed, and then
/// forwarded. Only the two wheels, in either resolution, are never mirrored.
pub proof fn law_pointer_motion_is_mirrored(
    thread: InputThread,
    code: RelCode,
    value: i32,
    grabbed: bool,
    mirrored: bool,
)
    requires
        thread.kind == InputKind::Mouse,
        thread.request == InputRequest::Poll,
    ensures
        ({
            let event = InputEvent { code: EventCode::Rel(code), value };
            let reset = thread.next(InputReply::Event(event));
            let looked = reset.next(InputReply::Done);
            let wheel = code == RelCode::Wheel || code == RelCode::HWheel || code
                == RelCode::WheelHiRes || code == RelCode::HWheelHiRes;
            &&& reset.request == InputRequest::ResetDrop(event)
            &&& reset.fits(InputReply::Done)
            &&& wheel ==> looked == (InputThread {
                request: InputRequest::Forward(event),
                ..thread
            })
            &&& !wheel ==> {
                let answered = looked.next(InputReply::Flag(grabbed));
                &&& looked.request == InputRequest::ReadGrab(event)
                &&& looked.fits(InputReply::Flag(grabbed))
                &&& grabbed ==> {
                    &&& answered.request == InputRequest::Mirror(event)
                    &&& answered.fits(InputReply::Outcome(mirrored))
                    &&& answered.next(InputReply::Outcome(mirrored)) == (InputThread {
                        request: InputRequest::Forward(event),
                        ..thread
                    })
                }
                &&& !grabbed ==> answered == (InputThread {
                    request: InputRequest::Forward(event),
                    ..thread
                })
            }
        }),
{
}

/// An event that closes a group of mouse events is mirrored at once just if the mouse is
/// grabbed. If the mouse dropped events it is synchronized instead, and the thread ends if that
/// fails.
pub proof fn law_mouse_groups_are_closed(
    thread: InputThread,
    code: SynCode,
    value: i32,
    grabbed: bool,
)
    requires
        thread.kind == InputKind::Mouse,
        thread.request == InputRequest::Poll,
    ensures
        ({
            let event = InputEvent { code: EventCode::Syn(code), value };
            let reset = thread.next(InputReply::Event(event));
            let looked = reset.next(InputReply::Done);
            &&& reset.request == InputRequest::ResetDrop(event)
            &&& reset.fits(InputReply::Done)
            &&& code == SynCode::Dropped ==> {
                &&& looked.request == InputRequest::Resync(event)
                &&& looked.fits(InputReply::Outcome(true))
                &&& looked.next(InputReply::Outcome(true)) == (InputThread {
                    request: InputRequest::Forward(event),
                    ..thread
                })
                &&& looked.fits(InputReply::Outcome(false))
                &&& looked.next(InputReply::Outcome(false)) == (InputThread {
                    request: InputRequest::Stop(InputOutcome::Failed(InputError::Resync)),
                    ..thread
                })
            }
            &&& code != SynCode::Dropped ==> {
                &&& looked.request == InputRequest::ReadGrab(event)
                &&& looked.fits(InputReply::Flag(grabbed))
                &&& looked.next(InputReply::Flag(grabbed)) == (InputThread {
                    request: if grabbed {
                        InputRequest::Mirror(event)
                    } else {
                        InputRequest::Forward(event)
                    },
                    ..thread
                })
            }
        }),
{
}

/// A key of a keyboard or a button of a mouse is held down from an event with a positive value
/// on, and released by any other, and the event is forwarded. A button without an index has no
/// state, and its event is forwarded all the same.
pub proof fn law_keys_are_tracked(thread: InputThread, key: u16, value: i32, index: usize)
    requires
        thread.kind == InputKind::Keyboard || thread.kind == InputKind::Mouse,
        thread.request == InputRequest::Poll,
    ensures
        ({
            let event = InputEvent { code: EventCode::Key(key), value };
            let reset = thread.next(InputReply::Event(event));
            let looked = reset.next(InputReply::Done);
            let found = looked.next(InputReply::Index(Some(index)));
            let forward = InputThread { request: InputRequest::Forward(event), ..thread };
            &&& reset.request == InputRequest::ResetDrop(event)
            &&& reset.fits(InputReply::Done)
            &&& looked.request == InputRequest::FindIndex(event, key)
            &&& looked.fits(InputReply::Index(Some(index)))
            &&& found.request == InputRequest::SetState(event, index, value > 0)
            &&& found.fits(InputReply::Done)
            &&& found.next(InputReply::Done) == forward
            &&& thread.kind == InputKind::Mouse ==> {
                &&& looked.fits(InputReply::Index(None))
                &&& looked.next(InputReply::Index(None)) == forward
            }
        }),
{
}

/// Events of a keyboard that are about no key, and events of a mouse that are about no button,
/// motion or group, are forwarded as they are.
pub proof fn law_other_events_are_forwarded(thread: InputThread, event: InputEvent)
    requires
        thread.request == InputRequest::Poll,
        ({
            ||| thread.kind == InputKind::Keyboard && !(event.code is Key)
            ||| thread.kind == InputKind::Mouse && event.code == EventCode::Other
        }),
    ensures
        ({
            let reset = thread.next(InputReply::Event(event));
            &&& reset.request == InputRequest::ResetDrop(event)
            &&& reset.fits(InputReply::Done)
            &&& reset.next(InputReply::Done) == (InputThread {
                request: InputRequest::Forward(event),
                ..thread
            })
        }),
{
}

/// Whether an event could be mirrored or not, it is forwarded; and whether it could be forwarded
/// or not, the time of the input is noted before the thread looks at the quit flag again.
pub proof fn law_event_ends(thread: InputThread, event: InputEvent, outcome: bool)
    ensures
        thread.request == InputRequest::Mirror(event) ==> {
            &&& thread.fits(InputReply::Outcome(outcome))
            &&& thread.next(InputReply::Outcome(outcome)) == (InputThread {
                request: InputRequest::Forward(event),
                ..thread
            })
        },
        thread.request == InputRequest::Forward(event) ==> {
            let noted = thread.next(InputReply::Outcome(outcome));
            &&& thread.fits(InputReply::Outcome(outcome))
            &&& noted == (InputThread { request: InputRequest::TouchTimer(event), ..thread })
            &&& noted.fits(InputReply::Done)
            &&& noted.next(InputReply::Done) == (InputThread {
                request: InputRequest::ReadQuit,
                ..thread
            })
        },
{
}

/// The name of a thread says what kind of device it reads, and then which one.
pub proof fn law_thread_name_tells_device(
    device_index: usize,
    keyboard: String,
    mouse: String,
    misc: String,
)
    requires
        call_ensures(thread_name, (InputKind::Keyboard, device_index), keyboard),
        call_ensures(thread_name, (InputKind::Mouse, device_index), mouse),
        call_ensures(thread_name, (InputKind::Misc, device_index), misc),
    ensures
        keyboard@ == "events/kbd:"@ + decimal(device_index as nat),
        mouse@ == "events/mouse:"@ + decimal(device_index as nat),
        misc@ == "events/misc:"@ + decimal(device_index as nat),
{
}

/// A thread that has stopped takes no further reply.
pub proof fn law_stop_is_final(thread: InputThread, replies: Seq<InputReply>)
    requires
        thread.request is Stop,
        thread.accepts(replies),
    ensures
        replies.len() == 0,
    decreases replies.len(),
{
    if replies.len() > 0 {
        law_stop_is_final(thread, replies.drop_last());
    }
}

/// A new thread is at the beginning, and a step goes on to what the reply calls for.
pub proof fn law_calls_follow_the_replies(
    kind: InputKind,
    usb_vid: u16,
    usb_pid: u16,
    reply: InputReply,
)
    ensures
        forall|thread: InputThread| #[trigger]
            call_ensures(InputThread::new, (kind, usb_vid, usb_pid), thread) ==> thread
                == InputThread::initial(kind, usb_vid, usb_pid),
        forall|thread: &mut InputThread| #[trigger]
            call_ensures(InputThread::step, (thread, reply), ()) ==> *final(thread) == thread.next(
                reply,
            ),
{
}

/// A call that records a press sets the state of that key or button, and of no other.
pub proof fn law_press_is_recorded(index: usize, pressed: bool)
    ensures
        forall|states: &mut Vec<bool>|
            index < states@.len() && #[trigger] call_ensures(
                record_press,
                (states, index, pressed),
                (),
            ) ==> {
                &&& final(states)@.len() == states@.len()
                &&& final(states)@[index as int] == pressed
                &&& forall|i: int|
                    0 <= i < states@.len() && i != index ==> final(states)@[i] == states@[i]
            },
{
}

} // verus!

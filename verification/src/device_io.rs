//! The thread that renders frames and sends them to the devices.
//!
//! The thread is a state machine. It names the next thing to be done outside as a
//! request, and takes a step once the reply to that request is known.

use vstd::prelude::*;

verus! {

/// The groups of devices, in the order in which they get a frame.
#[derive(Debug, Clone, Copy, PartialEq, Eq, Structural)]
pub enum DeviceClass {
    Keyboard,
    Mouse,
    Misc,
}

/// What the thread asks for. A device is denoted by its class and by its index within
/// the class, a Lua VM by its index.
#[derive(Debug, Clone, Copy, PartialEq, Eq, Structural)]
pub enum IoRequest {
    /// Shall the thread terminate? Reply: `Flag`.
    ReadQuit,
    /// Wait for a render request. Reply: `Outcome`.
    Receive,
    /// The generation of the color maps that the VMs submitted. Reply: `Generation`.
    ReadGeneration,
    /// Start with a clear canvas. Reply: `Done`.
    ClearCanvas,
    /// How many VMs are there, and how many of them have failed? Reply: `Vms`.
    CountVms,
    /// Set the number of pending blend operations. Reply: `Done`.
    SetPending(usize),
    /// Has this VM failed before? Reply: `Flag`.
    CheckFailed(usize),
    /// Tell this VM to blend its color map with the canvas. Reply: `Outcome`.
    Realize(usize),
    /// Remember that this VM could not be reached. Reply: `Done`.
    MarkFailed(usize),
    /// Wait until this VM is done. Reply: `Flag`, set after a timeout.
    Await(usize),
    /// Is the userspace LEDs plugin active? Reply: `Flag`.
    ReadUleds,
    /// Blend the LED map of the userspace LEDs plugin. Reply: `Done`.
    BlendUleds,
    /// Is the SDK plugin active? Reply: `Flag`.
    ReadSdk,
    /// Blend the LED map of the SDK plugin. Reply: `Done`.
    BlendSdk,
    /// How many devices of this class are there? Reply: `Count`.
    CountDevices(DeviceClass),
    /// Try to lock a device, without waiting. Reply: `Flag`, set if it is locked now.
    Lock(DeviceClass, usize),
    /// Is the device initialized? Reply: `Status`.
    QueryInitialized(DeviceClass, usize),
    /// Send the canvas to the device. Reply: `Outcome`.
    SendMap(DeviceClass, usize),
    /// Has the device failed? Reply: `Status`.
    QueryFailed(DeviceClass, usize),
    /// Have the main loop entered again, without this device. Reply: `Done`.
    RequestReenter(DeviceClass, usize),
    /// Open the device anew. Reply: `Outcome`.
    Open(DeviceClass, usize),
    /// Send the initialization sequence to the device. Reply: `Outcome`.
    Initialize(DeviceClass, usize),
    /// Keep the canvas as the frame that was rendered last. Reply: `Done`.
    SaveFrame,
    /// Milliseconds since frames are counted. Reply: `Elapsed`.
    ReadTimer,
    /// Report the number of frames and restart the timer. Reply: `Done`.
    ReportFps(i32),
    /// The thread ends.
    Stop,
}

/// The replies to requests.
#[derive(Debug, Clone, Copy, PartialEq, Eq, Structural)]
pub enum IoReply {
    Done,
    Flag(bool),
    /// Did the operation succeed?
    Outcome(bool),
    /// A flag that could be queried, or not.
    Status(Option<bool>),
    Generation(usize),
    Vms { total: usize, failed: usize },
    Count(usize),
    Elapsed(u128),
}

/// The state of the device I/O thread.
#[derive(Debug, Clone, Copy, PartialEq, Eq, Structural)]
pub struct DeviceIoThread {
    /// The generation of the frame that is visible on the devices.
    pub saved_generation: usize,
    /// The frames since the last report.
    pub fps_counter: i32,
    /// The generation of the frame that is being rendered.
    pub generation: usize,
    /// The number of VMs that take part in that frame.
    pub vms: usize,
    /// Will the frame not be sent to the devices?
    pub drop_frame: bool,
    /// The number of devices in the class that is being served.
    pub devices: usize,
    /// What the thread waits for.
    pub request: IoRequest,
}

/// The class that is served behind another one.
pub open spec fn next_class(class: DeviceClass) -> Option<DeviceClass> {
    match class {
        DeviceClass::Keyboard => Some(DeviceClass::Mouse),
        DeviceClass::Mouse => Some(DeviceClass::Misc),
        DeviceClass::Misc => None,
    }
}

/// Behind the last device of a class come the devices of the next one, and behind all
/// devices the frame is complete.
pub open spec fn after_class(class: DeviceClass) -> IoRequest {
    match next_class(class) {
        Some(next) => IoRequest::CountDevices(next),
        None => IoRequest::SaveFrame,
    }
}

impl DeviceIoThread {
    /// A thread that has rendered nothing yet.
    pub open spec fn initial() -> DeviceIoThread {
        DeviceIoThread {
            saved_generation: 0,
            fps_counter: 0,
            generation: 0,
            vms: 0,
            drop_frame: false,
            devices: 0,
            request: IoRequest::ReadQuit,
        }
    }

    /// The same state with another request.
    pub open spec fn ask(self, request: IoRequest) -> DeviceIoThread {
        DeviceIoThread { request, ..self }
    }

    /// The VM with this index is the next one, if there is one. The plugins come behind
    /// the VMs.
    pub open spec fn ask_vm(self, index: int) -> DeviceIoThread {
        if index < self.vms {
            self.ask(IoRequest::CheckFailed(index as usize))
        } else {
            self.ask(IoRequest::ReadUleds)
        }
    }

    /// The device with this index is the next one, if there is one in the class.
    pub open spec fn ask_device(self, class: DeviceClass, index: int) -> DeviceIoThread {
        if index < self.devices {
            self.ask(IoRequest::Lock(class, index as usize))
        } else {
            self.ask(after_class(class))
        }
    }

    /// The canvas is complete: it goes to the devices, unless the frame is dropped.
    pub open spec fn deliver(self) -> DeviceIoThread {
        if self.drop_frame {
            self.ask(IoRequest::ReadTimer)
        } else {
            self.ask(IoRequest::CountDevices(DeviceClass::Keyboard))
        }
    }

    /// Does a reply answer the request of the thread? More VMs than there are cannot
    /// have failed, and the frame counter must not overflow.
    pub open spec fn fits(self, reply: IoReply) -> bool {
        match self.request {
            IoRequest::ReadQuit => reply is Flag,
            IoRequest::Receive => reply is Outcome,
            IoRequest::ReadGeneration => reply matches IoReply::Generation(generation) && (
            generation > self.saved_generation ==> self.fps_counter < i32::MAX),
            IoRequest::ClearCanvas => reply is Done,
            IoRequest::CountVms => reply matches IoReply::Vms { total, failed } && failed <= total,
            IoRequest::SetPending(_) => reply is Done,
            IoRequest::CheckFailed(_) => reply is Flag,
            IoRequest::Realize(_) => reply is Outcome,
            IoRequest::MarkFailed(_) => reply is Done,
            IoRequest::Await(_) => reply is Flag,
            IoRequest::ReadUleds => reply is Flag,
            IoRequest::BlendUleds => reply is Done,
            IoRequest::ReadSdk => reply is Flag,
            IoRequest::BlendSdk => reply is Done,
            IoRequest::CountDevices(_) => reply is Count,
            IoRequest::Lock(_, _) => reply is Flag,
            IoRequest::QueryInitialized(_, _) => reply is Status,
            IoRequest::SendMap(_, _) => reply is Outcome,
            IoRequest::QueryFailed(_, _) => reply is Status,
            IoRequest::RequestReenter(_, _) => reply is Done,
            IoRequest::Open(_, _) => reply is Outcome,
            IoRequest::Initialize(_, _) => reply is Outcome,
            IoRequest::SaveFrame => reply is Done,
            IoRequest::ReadTimer => reply is Elapsed,
            IoRequest::ReportFps(_) => reply is Done,
            IoRequest::Stop => false,
        }
    }

    /// The state behind a reply.
    pub open spec fn next(self, reply: IoReply) -> DeviceIoThread {
        match self.request {
            IoRequest::ReadQuit => self.ask(
                if reply == IoReply::Flag(true) {
                    IoRequest::Stop
                } else {
                    IoRequest::Receive
                },
            ),
            IoRequest::Receive => self.ask(
                if reply == IoReply::Outcome(true) {
                    IoRequest::ReadGeneration
                } else {
                    IoRequest::ReadQuit
                },
            ),
            // a frame is rendered only if a VM submitted a new color map
            IoRequest::ReadGeneration => if reply->Generation_0 > self.saved_generation {
                DeviceIoThread {
                    generation: reply->Generation_0,
                    drop_frame: false,
                    fps_counter: (self.fps_counter + 1) as i32,
                    request: IoRequest::ClearCanvas,
                    ..self
                }
            } else {
                self.ask(IoRequest::ReadTimer)
            },
            IoRequest::ClearCanvas => self.ask(IoRequest::CountVms),
            IoRequest::CountVms => DeviceIoThread {
                vms: reply->total,
                request: IoRequest::SetPending((reply->total - reply->failed) as usize),
                ..self
            },
            IoRequest::SetPending(_) => self.ask_vm(0),
            // a VM that failed is skipped, and the frame with it
            IoRequest::CheckFailed(index) => if reply == IoReply::Flag(true) {
                DeviceIoThread { drop_frame: true, ..self }.ask_vm(index + 1)
            } else {
                self.ask(IoRequest::Realize(index))
            },
            IoRequest::Realize(index) => self.ask(
                if reply == IoReply::Outcome(true) {
                    IoRequest::Await(index)
                } else {
                    IoRequest::MarkFailed(index)
                },
            ),
            IoRequest::MarkFailed(index) => self.ask(IoRequest::Await(index)),
            // after a timeout no further VM takes part
            IoRequest::Await(index) => if reply == IoReply::Flag(true) {
                DeviceIoThread { drop_frame: true, request: IoRequest::ReadUleds, ..self }
            } else {
                self.ask_vm(index + 1)
            },
            IoRequest::ReadUleds => self.ask(
                if reply == IoReply::Flag(true) {
                    IoRequest::BlendUleds
                } else {
                    IoRequest::ReadSdk
                },
            ),
            IoRequest::BlendUleds => self.ask(IoRequest::ReadSdk),
            IoRequest::ReadSdk => if reply == IoReply::Flag(true) {
                self.ask(IoRequest::BlendSdk)
            } else {
                self.deliver()
            },
            IoRequest::BlendSdk => self.deliver(),
            IoRequest::CountDevices(class) => DeviceIoThread {
                devices: reply->Count_0,
                ..self
            }.ask_device(class, 0),
            IoRequest::Lock(class, index) => if reply == IoReply::Flag(true) {
                self.ask(IoRequest::QueryInitialized(class, index))
            } else {
                self.ask_device(class, index + 1)
            },
            IoRequest::QueryInitialized(class, index) => match reply->Status_0 {
                Some(true) => self.ask(IoRequest::SendMap(class, index)),
                Some(false) => self.ask(IoRequest::Open(class, index)),
                None => self.ask_device(class, index + 1),
            },
            IoRequest::SendMap(class, index) => if reply == IoReply::Outcome(true) {
                self.ask_device(class, index + 1)
            } else {
                self.ask(IoRequest::QueryFailed(class, index))
            },
            // a device that cannot be queried counts as failed
            IoRequest::QueryFailed(class, index) => if reply == IoReply::Status(Some(false)) {
                self.ask_device(class, index + 1)
            } else {
                self.ask(IoRequest::RequestReenter(class, index))
            },
            IoRequest::RequestReenter(class, index) => self.ask_device(class, index + 1),
            IoRequest::Open(class, index) => self.ask(IoRequest::Initialize(class, index)),
            IoRequest::Initialize(class, index) => self.ask_device(class, index + 1),
            IoRequest::SaveFrame => DeviceIoThread {
                saved_generation: self.generation,
                request: IoRequest::ReadTimer,
                ..self
            },
            IoRequest::ReadTimer => self.ask(
                if reply->Elapsed_0 >= 1000 {
                    IoRequest::ReportFps(self.fps_counter)
                } else {
                    IoRequest::ReadQuit
                },
            ),
            IoRequest::ReportFps(_) => DeviceIoThread {
                fps_counter: 0,
                request: IoRequest::ReadQuit,
                ..self
            },
            IoRequest::Stop => self,
        }
    }

    /// Is the thread serving the devices with this request?
    pub open spec fn delivering(self) -> bool {
        match self.request {
            IoRequest::CountDevices(_) => true,
            IoRequest::Lock(_, _) => true,
            IoRequest::QueryInitialized(_, _) => true,
            IoRequest::SendMap(_, _) => true,
            IoRequest::QueryFailed(_, _) => true,
            IoRequest::RequestReenter(_, _) => true,
            IoRequest::Open(_, _) => true,
            IoRequest::Initialize(_, _) => true,
            IoRequest::SaveFrame => true,
            _ => false,
        }
    }

    /// Is the thread putting a frame together with this request?
    pub open spec fn composing(self) -> bool {
        match self.request {
            IoRequest::ClearCanvas => true,
            IoRequest::CountVms => true,
            IoRequest::SetPending(_) => true,
            IoRequest::CheckFailed(_) => true,
            IoRequest::Realize(_) => true,
            IoRequest::MarkFailed(_) => true,
            IoRequest::Await(_) => true,
            IoRequest::ReadUleds => true,
            IoRequest::BlendUleds => true,
            IoRequest::ReadSdk => true,
            IoRequest::BlendSdk => true,
            _ => false,
        }
    }

    /// What holds of the thread at all times. Only a frame that is newer than the visible
    /// one is rendered, only one that is not dropped is delivered, and indices are in
    /// range.
    pub open spec fn wf(self) -> bool {
        &&& self.fps_counter >= 0
        &&& self.composing() || self.delivering() ==> self.saved_generation < self.generation
        &&& self.delivering() ==> !self.drop_frame
        &&& match self.request {
            IoRequest::CheckFailed(index) => index < self.vms,
            IoRequest::Realize(index) => index < self.vms,
            IoRequest::MarkFailed(index) => index < self.vms,
            IoRequest::Await(index) => index < self.vms,
            IoRequest::Lock(_, index) => index < self.devices,
            IoRequest::QueryInitialized(_, index) => index < self.devices,
            IoRequest::SendMap(_, index) => index < self.devices,
            IoRequest::QueryFailed(_, index) => index < self.devices,
            IoRequest::RequestReenter(_, index) => index < self.devices,
            IoRequest::Open(_, index) => index < self.devices,
            IoRequest::Initialize(_, index) => index < self.devices,
            IoRequest::ReportFps(count) => count == self.fps_counter,
            _ => true,
        }
    }

    /// Do all replies answer the requests that the thread makes one after the other?
    pub open spec fn accepts(self, replies: Seq<IoReply>) -> bool
        decreases replies.len(),
    {
        replies.len() == 0 || (self.accepts(replies.drop_last()) && self.run(
            replies.drop_last(),
        ).fits(replies.last()))
    }

    /// The state behind a sequence of replies.
    pub open spec fn run(self, replies: Seq<IoReply>) -> DeviceIoThread
        decreases replies.len(),
    {
        if replies.len() == 0 {
            self
        } else {
            self.run(replies.drop_last()).next(replies.last())
        }
    }

    /// Starts the thread.
    pub fn new() -> (thread: DeviceIoThread)
        ensures
            thread == Self::initial(),
            thread.wf(),
    {
        DeviceIoThread {
            saved_generation: 0,
            fps_counter: 0,
            generation: 0,
            vms: 0,
            drop_frame: false,
            devices: 0,
            request: IoRequest::ReadQuit,
        }
    }

    fn turn_to_vm(&mut self, index: usize)
        ensures
            *final(self) == old(self).ask_vm(index as int),
    {
        self.request = if index < self.vms {
            IoRequest::CheckFailed(index)
        } else {
            IoRequest::ReadUleds
        };
    }

    fn turn_to_device(&mut self, class: DeviceClass, index: usize)
        ensures
            *final(self) == old(self).ask_device(class, index as int),
    {
        self.request = if index < self.devices {
            IoRequest::Lock(class, index)
        } else {
            match class {
                DeviceClass::Keyboard => IoRequest::CountDevices(DeviceClass::Mouse),
                DeviceClass::Mouse => IoRequest::CountDevices(DeviceClass::Misc),
                DeviceClass::Misc => IoRequest::SaveFrame,
            }
        };
    }

    fn finish_canvas(&mut self)
        ensures
            *final(self) == old(self).deliver(),
    {
        self.request = if self.drop_frame {
            IoRequest::ReadTimer
        } else {
            IoRequest::CountDevices(DeviceClass::Keyboard)
        };
    }

    /// Takes the step that the reply to the current request calls for.
    pub fn step(&mut self, reply: IoReply)
        requires
            old(self).wf(),
            old(self).fits(reply),
        ensures
            *final(self) == old(self).next(reply),
            final(self).wf(),
    {
        match (self.request, reply) {
            (IoRequest::ReadQuit, IoReply::Flag(quit)) => {
                self.request = if quit {
                    IoRequest::Stop
                } else {
                    IoRequest::Receive
                };
            },
            (IoRequest::Receive, IoReply::Outcome(received)) => {
                self.request = if received {
                    IoRequest::ReadGeneration
                } else {
                    IoRequest::ReadQuit
                };
            },
            (IoRequest::ReadGeneration, IoReply::Generation(generation)) => {
                if self.saved_generation < generation {
                    self.generation = generation;
                    self.drop_frame = false;
                    self.fps_counter = self.fps_counter + 1;
                    self.request = IoRequest::ClearCanvas;
                } else {
                    self.request = IoRequest::ReadTimer;
                }
            },
            (IoRequest::ClearCanvas, IoReply::Done) => {
                self.request = IoRequest::CountVms;
            },
            (IoRequest::CountVms, IoReply::Vms { total, failed }) => {
                self.vms = total;
                self.request = IoRequest::SetPending(total - failed);
            },
            (IoRequest::SetPending(_), IoReply::Done) => {
                self.turn_to_vm(0);
            },
            (IoRequest::CheckFailed(index), IoReply::Flag(failed)) => {
                if failed {
                    self.drop_frame = true;
                    self.turn_to_vm(index + 1);
                } else {
                    self.request = IoRequest::Realize(index);
                }
            },
            (IoRequest::Realize(index), IoReply::Outcome(sent)) => {
                self.request = if sent {
                    IoRequest::Await(index)
                } else {
                    IoRequest::MarkFailed(index)
                };
            },
            (IoRequest::MarkFailed(index), IoReply::Done) => {
                self.request = IoRequest::Await(index);
            },
            (IoRequest::Await(index), IoReply::Flag(timed_out)) => {
                if timed_out {
                    self.drop_frame = true;
                    self.request = IoRequest::ReadUleds;
                } else {
                    self.turn_to_vm(index + 1);
                }
            },
            (IoRequest::ReadUleds, IoReply::Flag(active)) => {
                self.request = if active {
                    IoRequest::BlendUleds
                } else {
                    IoRequest::ReadSdk
                };
            },
            (IoRequest::BlendUleds, IoReply::Done) => {
                self.request = IoRequest::ReadSdk;
            },
            (IoRequest::ReadSdk, IoReply::Flag(active)) => {
                if active {
                    self.request = IoRequest::BlendSdk;
                } else {
                    self.finish_canvas();
                }
            },
            (IoRequest::BlendSdk, IoReply::Done) => {
                self.finish_canvas();
            },
            (IoRequest::CountDevices(class), IoReply::Count(count)) => {
                self.devices = count;
                self.turn_to_device(class, 0);
            },
            (IoRequest::Lock(class, index), IoReply::Flag(locked)) => {
                if locked {
                    self.request = IoRequest::QueryInitialized(class, index);
                } else {
                    self.turn_to_device(class, index + 1);
                }
            },
            (IoRequest::QueryInitialized(class, index), IoReply::Status(initialized)) => {
                match initialized {
                    Some(true) => {
                        self.request = IoRequest::SendMap(class, index);
                    },
                    Some(false) => {
                        self.request = IoRequest::Open(class, index);
                    },
                    None => {
                        self.turn_to_device(class, index + 1);
                    },
                }
            },
            (IoRequest::SendMap(class, index), IoReply::Outcome(sent)) => {
                if sent {
                    self.turn_to_device(class, index + 1);
                } else {
                    self.request = IoRequest::QueryFailed(class, index);
                }
            },
            (IoRequest::QueryFailed(class, index), IoReply::Status(failed)) => {
                match failed {
                    Some(false) => {
                        self.turn_to_device(class, index + 1);
                    },
                    _ => {
                        self.request = IoRequest::RequestReenter(class, index);
                    },
                }
            },
            (IoRequest::RequestReenter(class, index), IoReply::Done) => {
                self.turn_to_device(class, index + 1);
            },
            (IoRequest::Open(class, index), IoReply::Outcome(_)) => {
                self.request = IoRequest::Initialize(class, index);
            },
            (IoRequest::Initialize(class, index), IoReply::Outcome(_)) => {
                self.turn_to_device(class, index + 1);
            },
            (IoRequest::SaveFrame, IoReply::Done) => {
                self.saved_generation = self.generation;
                self.request = IoRequest::ReadTimer;
            },
            (IoRequest::ReadTimer, IoReply::Elapsed(millis)) => {
                self.request = if millis >= 1000 {
                    IoRequest::ReportFps(self.fps_counter)
                } else {
                    IoRequest::ReadQuit
                };
            },
            (IoRequest::ReportFps(_), IoReply::Done) => {
                self.fps_counter = 0;
                self.request = IoRequest::ReadQuit;
            },
            _ => {},
        }
    }
}

/// A step keeps what holds of the thread at all times.
proof fn lemma_next_wf(thread: DeviceIoThread, reply: IoReply)
    requires
        thread.wf(),
        thread.fits(reply),
    ensures
        thread.next(reply).wf(),
        thread.next(reply).saved_generation >= thread.saved_generation,
{
    match thread.request {
        IoRequest::ReadQuit => {},
        IoRequest::Receive => {},
        IoRequest::ReadGeneration => {},
        IoRequest::ClearCanvas => {},
        IoRequest::CountVms => {},
        IoRequest::SetPending(_) => {},
        IoRequest::CheckFailed(_) => {},
        IoRequest::Realize(_) => {},
        IoRequest::MarkFailed(_) => {},
        IoRequest::Await(_) => {},
        IoRequest::ReadUleds => {},
        IoRequest::BlendUleds => {},
        IoRequest::ReadSdk => {},
        IoRequest::BlendSdk => {},
        IoRequest::CountDevices(_) => {},
        IoRequest::Lock(_, _) => {},
        IoRequest::QueryInitialized(_, _) => {},
        IoRequest::SendMap(_, _) => {},
        IoRequest::QueryFailed(_, _) => {},
        IoRequest::RequestReenter(_, _) => {},
        IoRequest::Open(_, _) => {},
        IoRequest::Initialize(_, _) => {},
        IoRequest::SaveFrame => {},
        IoRequest::ReadTimer => {},
        IoRequest::ReportFps(_) => {},
        IoRequest::Stop => {},
    }
}

/// A step within a frame leads forward.
proof fn lemma_next_later(thread: DeviceIoThread, reply: IoReply)
    requires
        thread.wf(),
        rendering(thread),
        thread.fits(reply),
        rendering(thread.next(reply)),
    ensures
        earlier(position(thread.request), position(thread.next(reply).request)),
{
    match thread.request {
        IoRequest::ReadQuit => {},
        IoRequest::Receive => {},
        IoRequest::ReadGeneration => {},
        IoRequest::ClearCanvas => {},
        IoRequest::CountVms => {},
        IoRequest::SetPending(_) => {},
        IoRequest::CheckFailed(_) => {},
        IoRequest::Realize(_) => {},
        IoRequest::MarkFailed(_) => {},
        IoRequest::Await(_) => {},
        IoRequest::ReadUleds => {},
        IoRequest::BlendUleds => {},
        IoRequest::ReadSdk => {},
        IoRequest::BlendSdk => {},
        IoRequest::CountDevices(_) => {},
        IoRequest::Lock(_, _) => {},
        IoRequest::QueryInitialized(_, _) => {},
        IoRequest::SendMap(_, _) => {},
        IoRequest::QueryFailed(_, _) => {},
        IoRequest::RequestReenter(_, _) => {},
        IoRequest::Open(_, _) => {},
        IoRequest::Initialize(_, _) => {},
        IoRequest::SaveFrame => {},
        IoRequest::ReadTimer => {},
        IoRequest::ReportFps(_) => {},
        IoRequest::Stop => {},
    }
}

/// Whatever the replies are, the thread stays well-formed: only frames that are newer than
/// the visible one are rendered, and only frames that are not dropped are delivered. The
/// generation of the visible frame never goes back.
pub proof fn law_runs_stay_well_formed(thread: DeviceIoThread, replies: Seq<IoReply>)
    requires
        thread.wf(),
        thread.accepts(replies),
    ensures
        thread.run(replies).wf(),
        thread.run(replies).saved_generation >= thread.saved_generation,
    decreases replies.len(),
{
    if replies.len() > 0 {
        let front = replies.drop_last();
        law_runs_stay_well_formed(thread, front);
        lemma_next_wf(thread.run(front), replies.last());
    }
}

/// Was a VM skipped or did one time out since the last frame was started?
pub open spec fn interrupted(thread: DeviceIoThread, replies: Seq<IoReply>) -> bool
    decreases replies.len(),
{
    replies.len() > 0 && {
        let front = replies.drop_last();
        match thread.run(front).request {
            IoRequest::ReadGeneration => false,
            IoRequest::CheckFailed(_) => interrupted(thread, front) || replies.last()
                == IoReply::Flag(true),
            IoRequest::Await(_) => interrupted(thread, front) || replies.last() == IoReply::Flag(
                true,
            ),
            _ => interrupted(thread, front),
        }
    }
}

/// While a frame is rendered, it counts as dropped just if a VM was skipped or timed out.
/// So nothing of such a frame reaches a device, and every other frame is delivered.
#[verifier::rlimit(50)]
pub proof fn law_interrupted_frames_reach_no_device(replies: Seq<IoReply>)
    requires
        DeviceIoThread::initial().accepts(replies),
    ensures
        ({
            let thread = DeviceIoThread::initial().run(replies);
            &&& thread.composing() || thread.delivering() ==> thread.drop_frame == interrupted(
                DeviceIoThread::initial(),
                replies,
            )
            &&& thread.delivering() ==> !interrupted(DeviceIoThread::initial(), replies)
        }),
    decreases replies.len(),
{
    if replies.len() > 0 {
        let front = replies.drop_last();
        law_interrupted_frames_reach_no_device(front);
        law_runs_stay_well_formed(DeviceIoThread::initial(), front);
        lemma_next_wf(DeviceIoThread::initial().run(front), replies.last());
    }
}

/// Once a frame is saved, its generation is not rendered again: a later render request is
/// idle unless it finds a newer generation.
#[verifier::rlimit(50)]
pub proof fn law_generation_is_rendered_once(
    thread: DeviceIoThread,
    replies: Seq<IoReply>,
    generation: usize,
)
    requires
        thread.wf(),
        thread.request == IoRequest::SaveFrame,
        replies.len() > 0,
        thread.accepts(replies),
        thread.run(replies).request == IoRequest::ReadGeneration,
        generation <= thread.generation,
    ensures
        thread.run(replies).next(IoReply::Generation(generation)) == thread.run(replies).ask(
            IoRequest::ReadTimer,
        ),
{
    let first = replies.take(1);
    assert(replies =~= first + replies.skip(1));
    law_run_composes(thread, first, replies.skip(1));
    assert(first.drop_last() =~= Seq::empty());
    let saved = thread.next(replies[0]);
    assert(thread.run(first) == thread.run(Seq::empty()).next(first.last()));
    lemma_next_wf(thread, replies[0]);
    law_runs_stay_well_formed(saved, replies.skip(1));
}

/// Two runs in a row are one run.
pub proof fn law_run_composes(
    thread: DeviceIoThread,
    first: Seq<IoReply>,
    second: Seq<IoReply>,
)
    ensures
        thread.run(first + second) == thread.run(first).run(second),
        thread.accepts(first + second) <==> thread.accepts(first) && thread.run(first).accepts(
            second,
        ),
    decreases second.len(),
{
    if second.len() == 0 {
        assert(first + second =~= first);
    } else {
        assert((first + second).drop_last() =~= first + second.drop_last());
        law_run_composes(thread, first, second.drop_last());
    }
}

/// The replies of `count` VMs that all do their part: not failed before, reached, and done
/// in time.
pub open spec fn healthy_replies(count: nat) -> Seq<IoReply> {
    Seq::new(
        3 * count,
        |i: int|
            if i % 3 == 1 {
                IoReply::Outcome(true)
            } else {
                IoReply::Flag(false)
            },
    )
}

/// The three steps that a VM takes which does its part.
proof fn lemma_healthy_vm(thread: DeviceIoThread, index: usize)
    requires
        thread.request == IoRequest::CheckFailed(index),
    ensures
        thread.fits(IoReply::Flag(false)),
        thread.next(IoReply::Flag(false)) == thread.ask(IoRequest::Realize(index)),
        thread.ask(IoRequest::Realize(index)).fits(IoReply::Outcome(true)),
        thread.ask(IoRequest::Realize(index)).next(IoReply::Outcome(true)) == thread.ask(
            IoRequest::Await(index),
        ),
        thread.ask(IoRequest::Await(index)).fits(IoReply::Flag(false)),
        thread.ask(IoRequest::Await(index)).next(IoReply::Flag(false)) == thread.ask_vm(index + 1),
{
}

/// One more reply is one more step.
proof fn lemma_run_push(thread: DeviceIoThread, replies: Seq<IoReply>, reply: IoReply)
    ensures
        thread.run(replies.push(reply)) == thread.run(replies).next(reply),
        thread.accepts(replies.push(reply)) <==> thread.accepts(replies) && thread.run(
            replies,
        ).fits(reply),
{
    assert(replies.push(reply).drop_last() =~= replies);
}

/// The replies to the request for the pending operations and of the first `count` VMs.
pub open spec fn healthy_start(count: nat) -> Seq<IoReply> {
    seq![IoReply::Done] + healthy_replies(count)
}

/// What the steps of one VM that does its part add to a run.
#[verifier::rlimit(50)]
proof fn lemma_healthy_turn(thread: DeviceIoThread, replies: Seq<IoReply>, index: usize)
    requires
        thread.accepts(replies),
        thread.run(replies).request == IoRequest::CheckFailed(index),
    ensures
        ({
            let asked = replies.push(IoReply::Flag(false));
            let sent = asked.push(IoReply::Outcome(true));
            let done = sent.push(IoReply::Flag(false));
            &&& thread.run(asked).request == IoRequest::Realize(index)
            &&& thread.run(sent).request == IoRequest::Await(index)
            &&& thread.accepts(done)
            &&& thread.run(done) == thread.run(replies).ask_vm(index + 1)
        }),
{
    let asked = replies.push(IoReply::Flag(false));
    let sent = asked.push(IoReply::Outcome(true));
    lemma_healthy_vm(thread.run(replies), index);
    lemma_run_push(thread, replies, IoReply::Flag(false));
    lemma_run_push(thread, asked, IoReply::Outcome(true));
    lemma_run_push(thread, sent, IoReply::Flag(false));
}

/// Where a run stands behind VMs that do their part.
#[verifier::rlimit(50)]
proof fn lemma_healthy_run(thread: DeviceIoThread, count: nat)
    requires
        thread.request is SetPending,
        count <= thread.vms,
    ensures
        thread.accepts(healthy_start(count)),
        thread.run(healthy_start(count)) == thread.ask_vm(count as int),
    decreases count,
{
    if count == 0 {
        let none = Seq::<IoReply>::empty();
        assert(healthy_start(0) =~= none.push(IoReply::Done));
        lemma_run_push(thread, none, IoReply::Done);
        assert(thread.run(none) == thread);
        assert(thread.accepts(none));
    } else {
        let less = (count - 1) as nat;
        let before = healthy_start(less);
        lemma_healthy_run(thread, less);
        lemma_healthy_turn(thread, before, less as usize);
        assert(healthy_start(count) =~= before.push(IoReply::Flag(false)).push(
            IoReply::Outcome(true),
        ).push(IoReply::Flag(false)));
    }
}

/// If every VM does its part, each of them is asked exactly once and in order, the next one
/// only when the one before is done, and the frame is not dropped on their account.
#[verifier::rlimit(50)]
pub proof fn law_healthy_vms_blend_in_order(thread: DeviceIoThread)
    requires
        thread.request is SetPending,
    ensures
        ({
            let replies = healthy_start(thread.vms as nat);
            &&& thread.accepts(replies)
            &&& thread.run(replies) == thread.ask(IoRequest::ReadUleds)
            &&& forall|i: int|
                #![trigger thread.run(replies.take(1 + 3 * i))]
                0 <= i < thread.vms ==> {
                    &&& thread.run(replies.take(1 + 3 * i)).request == IoRequest::CheckFailed(
                        i as usize,
                    )
                    &&& thread.run(replies.take(2 + 3 * i)).request == IoRequest::Realize(
                        i as usize,
                    )
                    &&& thread.run(replies.take(3 + 3 * i)).request == IoRequest::Await(i as usize)
                }
        }),
{
    let replies = healthy_start(thread.vms as nat);
    lemma_healthy_run(thread, thread.vms as nat);
    assert forall|i: int|
        #![trigger thread.run(replies.take(1 + 3 * i))]
        0 <= i < thread.vms implies {
        &&& thread.run(replies.take(1 + 3 * i)).request == IoRequest::CheckFailed(i as usize)
        &&& thread.run(replies.take(2 + 3 * i)).request == IoRequest::Realize(i as usize)
        &&& thread.run(replies.take(3 + 3 * i)).request == IoRequest::Await(i as usize)
    } by {
        let before = healthy_start(i as nat);
        lemma_healthy_run(thread, i as nat);
        lemma_healthy_turn(thread, before, i as usize);
        assert(replies.take(1 + 3 * i) =~= before);
        assert(replies.take(2 + 3 * i) =~= before.push(IoReply::Flag(false)));
        assert(replies.take(3 + 3 * i) =~= before.push(IoReply::Flag(false)).push(
            IoReply::Outcome(true),
        ));
    }
}

/// Where a request stands within a frame: the stage, then the VM or device, then the step
/// that is taken with it.
pub open spec fn position(request: IoRequest) -> (int, int, int) {
    match request {
        IoRequest::ClearCanvas => (0, 0, 0),
        IoRequest::CountVms => (1, 0, 0),
        IoRequest::SetPending(_) => (2, 0, 0),
        IoRequest::CheckFailed(index) => (3, index as int, 0),
        IoRequest::Realize(index) => (3, index as int, 1),
        IoRequest::MarkFailed(index) => (3, index as int, 2),
        IoRequest::Await(index) => (3, index as int, 3),
        IoRequest::ReadUleds => (4, 0, 0),
        IoRequest::BlendUleds => (5, 0, 0),
        IoRequest::ReadSdk => (6, 0, 0),
        IoRequest::BlendSdk => (7, 0, 0),
        IoRequest::CountDevices(class) => (class_stage(class), -1, 0),
        IoRequest::Lock(class, index) => (class_stage(class), index as int, 0),
        IoRequest::QueryInitialized(class, index) => (class_stage(class), index as int, 1),
        IoRequest::SendMap(class, index) => (class_stage(class), index as int, 2),
        IoRequest::QueryFailed(class, index) => (class_stage(class), index as int, 3),
        IoRequest::RequestReenter(class, index) => (class_stage(class), index as int, 4),
        IoRequest::Open(class, index) => (class_stage(class), index as int, 5),
        IoRequest::Initialize(class, index) => (class_stage(class), index as int, 6),
        _ => (11, 0, 0),
    }
}

/// The stage in which a class of devices is served.
pub open spec fn class_stage(class: DeviceClass) -> int {
    match class {
        DeviceClass::Keyboard => 8,
        DeviceClass::Mouse => 9,
        DeviceClass::Misc => 10,
    }
}

/// Is a position earlier in the frame than another one?
pub open spec fn earlier(a: (int, int, int), b: (int, int, int)) -> bool {
    a.0 < b.0 || (a.0 == b.0 && (a.1 < b.1 || (a.1 == b.1 && a.2 < b.2)))
}

/// Is a frame being rendered?
pub open spec fn rendering(thread: DeviceIoThread) -> bool {
    thread.composing() || thread.delivering()
}

/// Within a frame the thread only moves forward. So a frame comes to an end, each VM is
/// asked at most once in it, and no device gets its canvas twice.
#[verifier::rlimit(50)]
pub proof fn law_frame_moves_forward(thread: DeviceIoThread, replies: Seq<IoReply>)
    requires
        thread.wf(),
        rendering(thread),
        replies.len() > 0,
        thread.accepts(replies),
        forall|i: int| 0 <= i <= replies.len() ==> rendering(#[trigger] thread.run(replies.take(i))),
    ensures
        earlier(position(thread.request), position(thread.run(replies).request)),
    decreases replies.len(),
{
    let front = replies.drop_last();
    law_runs_stay_well_formed(thread, front);
    assert(replies.take(replies.len() as int) =~= replies);
    assert(replies.take(replies.len() - 1) =~= front);
    if front.len() > 0 {
        assert forall|i: int| 0 <= i <= front.len() implies rendering(
            #[trigger] thread.run(front.take(i)),
        ) by {
            assert(front.take(i) =~= replies.take(i));
        }
        law_frame_moves_forward(thread, front);
    }
    lemma_next_later(thread.run(front), replies.last());
}

/// Does a request deal with this device?
pub open spec fn serves(request: IoRequest, class: DeviceClass, index: usize) -> bool {
    ||| request == IoRequest::Lock(class, index)
    ||| request == IoRequest::QueryInitialized(class, index)
    ||| request == IoRequest::SendMap(class, index)
    ||| request == IoRequest::QueryFailed(class, index)
    ||| request == IoRequest::RequestReenter(class, index)
    ||| request == IoRequest::Open(class, index)
    ||| request == IoRequest::Initialize(class, index)
}

/// A step with a device either stays with it or goes on to the next one, and changes
/// nothing else.
proof fn lemma_next_serves(
    thread: DeviceIoThread,
    class: DeviceClass,
    index: usize,
    reply: IoReply,
)
    requires
        serves(thread.request, class, index),
        thread.fits(reply),
    ensures
        ({
            let after = thread.next(reply);
            ||| serves(after.request, class, index) && after == thread.ask(after.request)
            ||| !serves(after.request, class, index) && after == thread.ask_device(class, index + 1)
        }),
{
    match thread.request {
        IoRequest::Lock(_, _) => {},
        IoRequest::QueryInitialized(_, _) => {},
        IoRequest::SendMap(_, _) => {},
        IoRequest::QueryFailed(_, _) => {},
        IoRequest::RequestReenter(_, _) => {},
        IoRequest::Open(_, _) => {},
        IoRequest::Initialize(_, _) => {},
        _ => {},
    }
}

/// Whatever happens with a device, the thread goes on to the next one as if nothing had
/// been: a device that is locked, broken or not initialized keeps no other device from
/// getting the frame, nor the frame from being complete.
#[verifier::rlimit(50)]
pub proof fn law_device_trouble_is_contained(
    thread: DeviceIoThread,
    class: DeviceClass,
    index: usize,
    replies: Seq<IoReply>,
)
    requires
        thread.request == IoRequest::Lock(class, index),
        thread.accepts(replies),
        forall|i: int|
            0 <= i < replies.len() ==> serves(
                (#[trigger] thread.run(replies.take(i))).request,
                class,
                index,
            ),
    ensures
        ({
            let after = thread.run(replies);
            ||| serves(after.request, class, index) && after == thread.ask(after.request)
            ||| !serves(after.request, class, index) && after == thread.ask_device(class, index + 1)
        }),
    decreases replies.len(),
{
    if replies.len() > 0 {
        let front = replies.drop_last();
        assert(replies.take(replies.len() - 1) =~= front);
        assert forall|i: int| 0 <= i < front.len() implies serves(
            (#[trigger] thread.run(front.take(i))).request,
            class,
            index,
        ) by {
            assert(front.take(i) =~= replies.take(i));
        }
        law_device_trouble_is_contained(thread, class, index, front);
        lemma_next_serves(thread.run(front), class, index, replies.last());
    }
}

/// Was a request made behind some of the replies?
pub open spec fn asked(thread: DeviceIoThread, replies: Seq<IoReply>, request: IoRequest) -> bool {
    exists|i: int|
        0 <= i <= replies.len() && (#[trigger] thread.run(replies.take(i))).request == request
}

/// A request that was made stays made, and the current one was made as well.
proof fn lemma_asked_push(thread: DeviceIoThread, replies: Seq<IoReply>)
    requires
        replies.len() > 0,
    ensures
        forall|request: IoRequest|
            asked(thread, replies.drop_last(), request) ==> #[trigger] asked(
                thread,
                replies,
                request,
            ),
        asked(thread, replies, thread.run(replies).request),
{
    let front = replies.drop_last();
    assert(replies.take(replies.len() as int) =~= replies);
    assert forall|request: IoRequest| asked(thread, front, request) implies #[trigger] asked(
        thread,
        replies,
        request,
    ) by {
        let i = choose|i: int|
            0 <= i <= front.len() && (#[trigger] thread.run(front.take(i))).request == request;
        assert(front.take(i) =~= replies.take(i));
    }
}

/// Did every device of a class get its turn?
pub open spec fn all_devices_asked(
    thread: DeviceIoThread,
    replies: Seq<IoReply>,
    class: DeviceClass,
    count: int,
) -> bool {
    forall|i: usize| i < count ==> #[trigger] asked(thread, replies, IoRequest::Lock(class, i))
}

/// The device that a request deals with.
pub open spec fn device_of(request: IoRequest) -> Option<(DeviceClass, usize)> {
    match request {
        IoRequest::Lock(class, index) => Some((class, index)),
        IoRequest::QueryInitialized(class, index) => Some((class, index)),
        IoRequest::SendMap(class, index) => Some((class, index)),
        IoRequest::QueryFailed(class, index) => Some((class, index)),
        IoRequest::RequestReenter(class, index) => Some((class, index)),
        IoRequest::Open(class, index) => Some((class, index)),
        IoRequest::Initialize(class, index) => Some((class, index)),
        _ => None,
    }
}

/// While a class is served, all devices up to the current one had their turn.
#[verifier::rlimit(50)]
proof fn lemma_devices_in_turn(
    thread: DeviceIoThread,
    class: DeviceClass,
    count: usize,
    replies: Seq<IoReply>,
)
    requires
        thread.request == IoRequest::CountDevices(class),
        replies.len() > 0,
        replies[0] == IoReply::Count(count),
        thread.accepts(replies),
    ensures
        all_devices_asked(thread, replies, class, count as int) || {
            let after = thread.run(replies);
            &&& after.devices == count
            &&& device_of(after.request) matches Some((current, index)) && current == class
                && all_devices_asked(thread, replies, class, index + 1)
        },
    decreases replies.len(),
{
    let front = replies.drop_last();
    lemma_asked_push(thread, replies);
    if front.len() == 0 {
        assert(thread.run(front) == thread);
    } else {
        lemma_devices_in_turn(thread, class, count, front);
        if all_devices_asked(thread, front, class, count as int) {
            assert(all_devices_asked(thread, replies, class, count as int));
        } else {
            let before = thread.run(front);
            let (_, index) = device_of(before.request)->0;
            assert(all_devices_asked(thread, replies, class, index + 1));
            assert(serves(before.request, class, index));
            lemma_next_serves(before, class, index, replies.last());
        }
    }
}

/// Once a frame is on its way to the devices of a class, the thread does not get to the next
/// class, nor to the end of the frame, before every device of the class had its turn.
#[verifier::rlimit(50)]
pub proof fn law_every_device_gets_its_turn(
    thread: DeviceIoThread,
    class: DeviceClass,
    count: usize,
    replies: Seq<IoReply>,
)
    requires
        thread.request == IoRequest::CountDevices(class),
        replies.len() > 0,
        replies[0] == IoReply::Count(count),
        thread.accepts(replies),
        thread.run(replies).request == after_class(class),
    ensures
        all_devices_asked(thread, replies, class, count as int),
{
    lemma_devices_in_turn(thread, class, count, replies);
}

/// The VM that a request deals with.
pub open spec fn vm_of(request: IoRequest) -> Option<usize> {
    match request {
        IoRequest::CheckFailed(index) => Some(index),
        IoRequest::Realize(index) => Some(index),
        IoRequest::MarkFailed(index) => Some(index),
        IoRequest::Await(index) => Some(index),
        _ => None,
    }
}

/// Did every VM get its turn?
pub open spec fn all_vms_asked(
    thread: DeviceIoThread,
    replies: Seq<IoReply>,
    count: int,
) -> bool {
    forall|i: usize| i < count ==> #[trigger] asked(thread, replies, IoRequest::CheckFailed(i))
}

/// Did no VM take too long?
pub open spec fn no_timeout(thread: DeviceIoThread, replies: Seq<IoReply>) -> bool {
    forall|i: int|
        0 <= i < replies.len() && (#[trigger] thread.run(replies.take(i))).request is Await
            ==> replies[i] == IoReply::Flag(false)
}

/// As long as no VM takes too long, all VMs up to the current one had their turn.
#[verifier::rlimit(50)]
proof fn lemma_vms_in_turn(thread: DeviceIoThread, replies: Seq<IoReply>)
    requires
        thread.request is SetPending,
        replies.len() > 0,
        thread.accepts(replies),
        no_timeout(thread, replies),
    ensures
        all_vms_asked(thread, replies, thread.vms as int) || {
            let after = thread.run(replies);
            &&& after.vms == thread.vms
            &&& vm_of(after.request) matches Some(index) && all_vms_asked(
                thread,
                replies,
                index + 1,
            )
        },
    decreases replies.len(),
{
    let front = replies.drop_last();
    lemma_asked_push(thread, replies);
    assert(replies.take(replies.len() - 1) =~= front);
    if front.len() == 0 {
        assert(thread.run(front) == thread);
    } else {
        assert forall|i: int|
            0 <= i < front.len() && (#[trigger] thread.run(
                front.take(i),
            )).request is Await implies front[i] == IoReply::Flag(false) by {
            assert(front.take(i) =~= replies.take(i));
        }
        lemma_vms_in_turn(thread, front);
        if all_vms_asked(thread, front, thread.vms as int) {
            assert(all_vms_asked(thread, replies, thread.vms as int));
        } else {
            let index = vm_of(thread.run(front).request)->0;
            assert(all_vms_asked(thread, replies, index + 1));
        }
    }
}

/// Unless a VM takes too long, the thread does not get to the plugins before every VM had
/// its turn, be it that VMs failed before or cannot be reached.
#[verifier::rlimit(50)]
pub proof fn law_every_vm_gets_its_turn(thread: DeviceIoThread, replies: Seq<IoReply>)
    requires
        thread.request is SetPending,
        thread.accepts(replies),
        no_timeout(thread, replies),
        thread.run(replies).request == IoRequest::ReadUleds,
    ensures
        all_vms_asked(thread, replies, thread.vms as int),
{
    lemma_vms_in_turn(thread, replies);
}

/// A thread begins with the quit flag, before anything was rendered.
pub proof fn law_thread_begins_with_nothing()
    ensures
        DeviceIoThread::initial().request == IoRequest::ReadQuit,
        DeviceIoThread::initial().saved_generation == 0,
        DeviceIoThread::initial().fps_counter == 0,
        !DeviceIoThread::initial().drop_frame,
        DeviceIoThread::initial().wf(),
{
}

/// The quit flag ends the thread. Without it the thread waits for a render request, and goes
/// on waiting if none could be received.
pub proof fn law_thread_runs_until_quit(thread: DeviceIoThread)
    ensures
        thread.request == IoRequest::ReadQuit ==> {
            &&& thread.fits(IoReply::Flag(true))
            &&& thread.next(IoReply::Flag(true)) == (DeviceIoThread {
                request: IoRequest::Stop,
                ..thread
            })
            &&& thread.fits(IoReply::Flag(false))
            &&& thread.next(IoReply::Flag(false)) == (DeviceIoThread {
                request: IoRequest::Receive,
                ..thread
            })
        },
        thread.request == IoRequest::Receive ==> {
            &&& thread.fits(IoReply::Outcome(true))
            &&& thread.next(IoReply::Outcome(true)) == (DeviceIoThread {
                request: IoRequest::ReadGeneration,
                ..thread
            })
            &&& thread.fits(IoReply::Outcome(false))
            &&& thread.next(IoReply::Outcome(false)) == (DeviceIoThread {
                request: IoRequest::ReadQuit,
                ..thread
            })
        },
{
}

/// A render request starts a frame just if the VMs have submitted a generation that is newer
/// than the visible one. The frame counts, and nothing has dropped it yet.
pub proof fn law_newer_generation_starts_frame(thread: DeviceIoThread, generation: usize)
    requires
        thread.request == IoRequest::ReadGeneration,
        thread.fps_counter < i32::MAX,
    ensures
        thread.fits(IoReply::Generation(generation)),
        generation <= thread.saved_generation ==> thread.next(IoReply::Generation(generation))
            == (DeviceIoThread { request: IoRequest::ReadTimer, ..thread }),
        generation > thread.saved_generation ==> {
            let after = thread.next(IoReply::Generation(generation));
            &&& after.request == IoRequest::ClearCanvas
            &&& after.generation == generation
            &&& after.fps_counter == thread.fps_counter + 1
            &&& !after.drop_frame
            &&& after.saved_generation == thread.saved_generation
        },
{
}

/// The canvas is cleared before the VMs are counted, and just the VMs that have not failed are
/// pending. Then the first VM has its turn; without VMs the plugins have.
pub proof fn law_vms_are_counted(thread: DeviceIoThread, total: usize, failed: usize)
    requires
        failed <= total,
    ensures
        thread.request == IoRequest::ClearCanvas ==> {
            &&& thread.fits(IoReply::Done)
            &&& thread.next(IoReply::Done) == (DeviceIoThread {
                request: IoRequest::CountVms,
                ..thread
            })
        },
        thread.request == IoRequest::CountVms ==> {
            let after = thread.next(IoReply::Vms { total, failed });
            &&& thread.fits(IoReply::Vms { total, failed })
            &&& after.vms == total
            &&& after.request matches IoRequest::SetPending(pending) && pending + failed == total
            &&& after == (DeviceIoThread { vms: after.vms, request: after.request, ..thread })
        },
        thread.request is SetPending ==> {
            &&& thread.fits(IoReply::Done)
            &&& thread.next(IoReply::Done) == (DeviceIoThread {
                request: if thread.vms > 0 {
                    IoRequest::CheckFailed(0)
                } else {
                    IoRequest::ReadUleds
                },
                ..thread
            })
        },
{
}

/// A VM that failed before is skipped and drops the frame. Any other VM is told to blend, is
/// marked as failed if it could not be told, and is awaited in either case. If the wait ends in
/// time the next VM has its turn; otherwise the frame is dropped and no further VM has one.
pub proof fn law_vm_turn(thread: DeviceIoThread, index: usize)
    requires
        index < thread.vms,
    ensures
        ({
            let onward = if index + 1 < thread.vms {
                IoRequest::CheckFailed((index + 1) as usize)
            } else {
                IoRequest::ReadUleds
            };
            &&& thread.request == IoRequest::CheckFailed(index) ==> {
                &&& thread.fits(IoReply::Flag(true))
                &&& thread.next(IoReply::Flag(true)) == (DeviceIoThread {
                    drop_frame: true,
                    request: onward,
                    ..thread
                })
                &&& thread.fits(IoReply::Flag(false))
                &&& thread.next(IoReply::Flag(false)) == (DeviceIoThread {
                    request: IoRequest::Realize(index),
                    ..thread
                })
            }
            &&& thread.request == IoRequest::Realize(index) ==> {
                &&& thread.fits(IoReply::Outcome(true))
                &&& thread.next(IoReply::Outcome(true)) == (DeviceIoThread {
                    request: IoRequest::Await(index),
                    ..thread
                })
                &&& thread.fits(IoReply::Outcome(false))
                &&& thread.next(IoReply::Outcome(false)) == (DeviceIoThread {
                    request: IoRequest::MarkFailed(index),
                    ..thread
                })
            }
            &&& thread.request == IoRequest::MarkFailed(index) ==> {
                &&& thread.fits(IoReply::Done)
                &&& thread.next(IoReply::Done) == (DeviceIoThread {
                    request: IoRequest::Await(index),
                    ..thread
                })
            }
            &&& thread.request == IoRequest::Await(index) ==> {
                &&& thread.fits(IoReply::Flag(true))
                &&& thread.next(IoReply::Flag(true)) == (DeviceIoThread {
                    drop_frame: true,
                    request: IoRequest::ReadUleds,
                    ..thread
                })
                &&& thread.fits(IoReply::Flag(false))
                &&& thread.next(IoReply::Flag(false)) == (DeviceIoThread {
                    request: onward,
                    ..thread
                })
            }
        }),
{
}

/// Behind the VMs comes the userspace LEDs plugin and then the SDK plugin, each blended just if
/// it is active. The canvas then goes to the keyboards first, unless the frame is dropped.
pub proof fn law_plugins_come_behind_vms(thread: DeviceIoThread)
    ensures
        ({
            let onward = if thread.drop_frame {
                IoRequest::ReadTimer
            } else {
                IoRequest::CountDevices(DeviceClass::Keyboard)
            };
            &&& thread.request == IoRequest::ReadUleds ==> {
                &&& thread.fits(IoReply::Flag(true))
                &&& thread.next(IoReply::Flag(true)) == (DeviceIoThread {
                    request: IoRequest::BlendUleds,
                    ..thread
                })
                &&& thread.fits(IoReply::Flag(false))
                &&& thread.next(IoReply::Flag(false)) == (DeviceIoThread {
                    request: IoRequest::ReadSdk,
                    ..thread
                })
            }
            &&& thread.request == IoRequest::BlendUleds ==> {
                &&& thread.fits(IoReply::Done)
                &&& thread.next(IoReply::Done) == (DeviceIoThread {
                    request: IoRequest::ReadSdk,
                    ..thread
                })
            }
            &&& thread.request == IoRequest::ReadSdk ==> {
                &&& thread.fits(IoReply::Flag(true))
                &&& thread.next(IoReply::Flag(true)) == (DeviceIoThread {
                    request: IoRequest::BlendSdk,
                    ..thread
                })
                &&& thread.fits(IoReply::Flag(false))
                &&& thread.next(IoReply::Flag(false)) == (DeviceIoThread {
                    request: onward,
                    ..thread
                })
            }
            &&& thread.request == IoRequest::BlendSdk ==> {
                &&& thread.fits(IoReply::Done)
                &&& thread.next(IoReply::Done) == (DeviceIoThread { request: onward, ..thread })
            }
        }),
{
}

/// The devices of a class are counted before the first one has its turn. Behind the keyboards
/// come the mice, behind the mice the misc devices, and behind those the frame is complete.
pub proof fn law_devices_are_counted(thread: DeviceIoThread, class: DeviceClass, count: usize)
    requires
        thread.request == IoRequest::CountDevices(class),
    ensures
        thread.fits(IoReply::Count(count)),
        thread.next(IoReply::Count(count)) == (DeviceIoThread {
            devices: count,
            request: if count > 0 {
                IoRequest::Lock(class, 0)
            } else {
                match class {
                    DeviceClass::Keyboard => IoRequest::CountDevices(DeviceClass::Mouse),
                    DeviceClass::Mouse => IoRequest::CountDevices(DeviceClass::Misc),
                    DeviceClass::Misc => IoRequest::SaveFrame,
                }
            },
            ..thread
        }),
{
}

/// A device of any class that could be locked is asked whether it is initialized. If it is, it
/// gets the canvas; if not, it is opened and then initialized, whether that works or not; if it
/// cannot tell, it is passed over. A device that does not take the canvas is asked whether it
/// has failed, and the main loop is entered again unless it says that it has not. In every
/// case the next device of the class has its turn behind that.
pub proof fn law_device_turn(thread: DeviceIoThread, class: DeviceClass, index: usize, done: bool)
    requires
        index < thread.devices,
    ensures
        ({
            let onward = if index + 1 < thread.devices {
                IoRequest::Lock(class, (index + 1) as usize)
            } else {
                match class {
                    DeviceClass::Keyboard => IoRequest::CountDevices(DeviceClass::Mouse),
                    DeviceClass::Mouse => IoRequest::CountDevices(DeviceClass::Misc),
                    DeviceClass::Misc => IoRequest::SaveFrame,
                }
            };
            let passed = DeviceIoThread { request: onward, ..thread };
            &&& thread.request == IoRequest::Lock(class, index) ==> {
                &&& thread.fits(IoReply::Flag(true))
                &&& thread.next(IoReply::Flag(true)) == (DeviceIoThread {
                    request: IoRequest::QueryInitialized(class, index),
                    ..thread
                })
                &&& thread.fits(IoReply::Flag(false))
                &&& thread.next(IoReply::Flag(false)) == passed
            }
            &&& thread.request == IoRequest::QueryInitialized(class, index) ==> {
                &&& thread.fits(IoReply::Status(Some(true)))
                &&& thread.next(IoReply::Status(Some(true))) == (DeviceIoThread {
                    request: IoRequest::SendMap(class, index),
                    ..thread
                })
                &&& thread.fits(IoReply::Status(Some(false)))
                &&& thread.next(IoReply::Status(Some(false))) == (DeviceIoThread {
                    request: IoRequest::Open(class, index),
                    ..thread
                })
                &&& thread.fits(IoReply::Status(None))
                &&& thread.next(IoReply::Status(None)) == passed
            }
            &&& thread.request == IoRequest::SendMap(class, index) ==> {
                &&& thread.fits(IoReply::Outcome(true))
                &&& thread.next(IoReply::Outcome(true)) == passed
                &&& thread.fits(IoReply::Outcome(false))
                &&& thread.next(IoReply::Outcome(false)) == (DeviceIoThread {
                    request: IoRequest::QueryFailed(class, index),
                    ..thread
                })
            }
            &&& thread.request == IoRequest::QueryFailed(class, index) ==> {
                &&& thread.fits(IoReply::Status(Some(false)))
                &&& thread.next(IoReply::Status(Some(false))) == passed
                &&& thread.fits(IoReply::Status(Some(true)))
                &&& thread.next(IoReply::Status(Some(true))) == (DeviceIoThread {
                    request: IoRequest::RequestReenter(class, index),
                    ..thread
                })
                &&& thread.fits(IoReply::Status(None))
                &&& thread.next(IoReply::Status(None)) == (DeviceIoThread {
                    request: IoRequest::RequestReenter(class, index),
                    ..thread
                })
            }
            &&& thread.request == IoRequest::RequestReenter(class, index) ==> {
                &&& thread.fits(IoReply::Done)
                &&& thread.next(IoReply::Done) == passed
            }
            &&& thread.request == IoRequest::Open(class, index) ==> {
                &&& thread.fits(IoReply::Outcome(done))
                &&& thread.next(IoReply::Outcome(done)) == (DeviceIoThread {
                    request: IoRequest::Initialize(class, index),
                    ..thread
                })
            }
            &&& thread.request == IoRequest::Initialize(class, index) ==> {
                &&& thread.fits(IoReply::Outcome(done))
                &&& thread.next(IoReply::Outcome(done)) == passed
            }
        }),
{
}

/// A frame that is saved is the visible one from then on. The frames are reported and counted
/// anew once a second has gone by, and the thread looks at the quit flag again.
pub proof fn law_frame_closes(thread: DeviceIoThread, millis: u128)
    ensures
        thread.request == IoRequest::SaveFrame ==> {
            &&& thread.fits(IoReply::Done)
            &&& thread.next(IoReply::Done) == (DeviceIoThread {
                saved_generation: thread.generation,
                request: IoRequest::ReadTimer,
                ..thread
            })
        },
        thread.request == IoRequest::ReadTimer ==> {
            &&& thread.fits(IoReply::Elapsed(millis))
            &&& thread.next(IoReply::Elapsed(millis)) == (DeviceIoThread {
                request: if millis < 1000 {
                    IoRequest::ReadQuit
                } else {
                    IoRequest::ReportFps(thread.fps_counter)
                },
                ..thread
            })
        },
        thread.request is ReportFps ==> {
            &&& thread.fits(IoReply::Done)
            &&& thread.next(IoReply::Done) == (DeviceIoThread {
                fps_counter: 0,
                request: IoRequest::ReadQuit,
                ..thread
            })
        },
{
}

/// The reply to a request that is made within a run leads to what is behind it.
proof fn lemma_run_take(thread: DeviceIoThread, replies: Seq<IoReply>, i: int)
    requires
        thread.accepts(replies),
        0 <= i < replies.len(),
    ensures
        thread.run(replies.take(i)).fits(replies[i]),
        thread.run(replies.take(i + 1)) == thread.run(replies.take(i)).next(replies[i]),
    decreases replies.len(),
{
    assert(replies.take(i + 1).drop_last() =~= replies.take(i));
    let front = replies.drop_last();
    if i == replies.len() - 1 {
        assert(replies.take(i) =~= front);
    } else {
        lemma_run_take(thread, front, i);
        assert(front.take(i) =~= replies.take(i));
    }
}

/// While the frame goes through a class of devices, every device of the class that can be
/// locked and is initialized gets the canvas.
#[verifier::spinoff_prover]
#[verifier::rlimit(60)]
pub proof fn law_every_ready_device_gets_the_canvas(
    thread: DeviceIoThread,
    class: DeviceClass,
    count: usize,
    index: usize,
    replies: Seq<IoReply>,
)
    requires
        thread.request == IoRequest::CountDevices(class),
        replies.len() > 0,
        replies[0] == IoReply::Count(count),
        thread.accepts(replies),
        thread.run(replies).request == (match class {
            DeviceClass::Keyboard => IoRequest::CountDevices(DeviceClass::Mouse),
            DeviceClass::Mouse => IoRequest::CountDevices(DeviceClass::Misc),
            DeviceClass::Misc => IoRequest::SaveFrame,
        }),
        index < count,
        forall|i: int|
            0 <= i < replies.len() && (#[trigger] thread.run(replies.take(i))).request
                == IoRequest::Lock(class, index) ==> replies[i] == IoReply::Flag(true),
        forall|i: int|
            0 <= i < replies.len() && (#[trigger] thread.run(replies.take(i))).request
                == IoRequest::QueryInitialized(class, index) ==> replies[i] == IoReply::Status(
                Some(true),
            ),
    ensures
        exists|i: int|
            0 <= i < replies.len() && (#[trigger] thread.run(replies.take(i))).request
                == IoRequest::SendMap(class, index),
{
    law_every_device_gets_its_turn(thread, class, count, replies);
    assert(asked(thread, replies, IoRequest::Lock(class, index)));
    let i = choose|i: int|
        0 <= i <= replies.len() && (#[trigger] thread.run(replies.take(i))).request
            == IoRequest::Lock(class, index);
    assert(replies.take(replies.len() as int) =~= replies);
    lemma_lock_leads_on(thread, class, index, replies, i);
    lemma_query_leads_on(thread, class, index, replies, i + 1);
}

proof fn lemma_lock_leads_on(
    thread: DeviceIoThread,
    class: DeviceClass,
    index: usize,
    replies: Seq<IoReply>,
    i: int,
)
    requires
        thread.accepts(replies),
        0 <= i < replies.len(),
        thread.run(replies.take(i)).request == IoRequest::Lock(class, index),
        replies[i] == IoReply::Flag(true),
    ensures
        thread.run(replies.take(i + 1)).request == IoRequest::QueryInitialized(class, index),
{
    lemma_run_take(thread, replies, i);
}

proof fn lemma_query_leads_on(
    thread: DeviceIoThread,
    class: DeviceClass,
    index: usize,
    replies: Seq<IoReply>,
    i: int,
)
    requires
        thread.accepts(replies),
        0 <= i < replies.len(),
        thread.run(replies.take(i)).request == IoRequest::QueryInitialized(class, index),
        replies[i] == IoReply::Status(Some(true)),
    ensures
        thread.run(replies.take(i + 1)).request == IoRequest::SendMap(class, index),
{
    lemma_run_take(thread, replies, i);
}

/// Does a request stand between two frames?
pub open spec fn idle(request: IoRequest) -> bool {
    request is ReadTimer || request is ReportFps || request is ReadQuit || request is Receive
        || request is Stop
}

/// From any request of a frame on, what follows is later in the frame or behind it, until a
/// new generation is looked for.
#[verifier::rlimit(50)]
proof fn lemma_later_or_idle(thread: DeviceIoThread, replies: Seq<IoReply>)
    requires
        thread.wf(),
        rendering(thread),
        replies.len() > 0,
        thread.accepts(replies),
        forall|i: int|
            0 <= i <= replies.len() ==> (#[trigger] thread.run(replies.take(i))).request
                != IoRequest::ReadGeneration,
    ensures
        ({
            let after = thread.run(replies);
            ||| rendering(after) && earlier(position(thread.request), position(after.request))
            ||| idle(after.request)
        }),
    decreases replies.len(),
{
    let front = replies.drop_last();
    law_runs_stay_well_formed(thread, front);
    assert(replies.take(replies.len() as int) =~= replies);
    assert(thread.run(replies).request != IoRequest::ReadGeneration);
    if front.len() > 0 {
        assert forall|i: int| 0 <= i <= front.len() implies (#[trigger] thread.run(
            front.take(i),
        )).request != IoRequest::ReadGeneration by {
            assert(front.take(i) =~= replies.take(i));
        }
        lemma_later_or_idle(thread, front);
    }
    let before = thread.run(front);
    if rendering(before) {
        if rendering(before.next(replies.last())) {
            lemma_next_later(before, replies.last());
        } else {
            lemma_frame_exit(before, replies.last());
        }
    }
}

/// A step out of a frame leads to the timer.
proof fn lemma_frame_exit(thread: DeviceIoThread, reply: IoReply)
    requires
        thread.wf(),
        rendering(thread),
        thread.fits(reply),
        !rendering(thread.next(reply)),
    ensures
        thread.next(reply).request == IoRequest::ReadTimer,
{
    match thread.request {
        IoRequest::ClearCanvas => {},
        IoRequest::CountVms => {},
        IoRequest::SetPending(_) => {},
        IoRequest::CheckFailed(_) => {},
        IoRequest::Realize(_) => {},
        IoRequest::MarkFailed(_) => {},
        IoRequest::Await(_) => {},
        IoRequest::ReadUleds => {},
        IoRequest::BlendUleds => {},
        IoRequest::ReadSdk => {},
        IoRequest::BlendSdk => {},
        IoRequest::CountDevices(_) => {},
        IoRequest::Lock(_, _) => {},
        IoRequest::QueryInitialized(_, _) => {},
        IoRequest::SendMap(_, _) => {},
        IoRequest::QueryFailed(_, _) => {},
        IoRequest::RequestReenter(_, _) => {},
        IoRequest::Open(_, _) => {},
        IoRequest::Initialize(_, _) => {},
        IoRequest::SaveFrame => {},
        _ => {},
    }
}

/// No device gets the canvas twice before a new generation is looked for.
#[verifier::rlimit(50)]
pub proof fn law_canvas_is_sent_once(
    thread: DeviceIoThread,
    class: DeviceClass,
    index: usize,
    replies: Seq<IoReply>,
)
    requires
        thread.wf(),
        thread.request == IoRequest::SendMap(class, index),
        replies.len() > 0,
        thread.accepts(replies),
        thread.run(replies).request == IoRequest::SendMap(class, index),
    ensures
        exists|i: int|
            0 <= i <= replies.len() && (#[trigger] thread.run(replies.take(i))).request
                == IoRequest::ReadGeneration,
{
    if forall|i: int|
        0 <= i <= replies.len() ==> (#[trigger] thread.run(replies.take(i))).request
            != IoRequest::ReadGeneration {
        lemma_later_or_idle(thread, replies);
    }
}

/// Before a frame is complete, all three classes had their turn.
pub proof fn law_every_class_gets_its_turn(thread: DeviceIoThread, replies: Seq<IoReply>)
    requires
        thread.wf(),
        thread.request == IoRequest::ClearCanvas,
        thread.accepts(replies),
        thread.run(replies).request == IoRequest::SaveFrame,
    ensures
        asked(thread, replies, IoRequest::CountDevices(DeviceClass::Keyboard)),
        asked(thread, replies, IoRequest::CountDevices(DeviceClass::Mouse)),
        asked(thread, replies, IoRequest::CountDevices(DeviceClass::Misc)),
{
    lemma_classes_in_turn(thread, replies);
}

/// How many classes have had their turn with each request of a frame.
spec fn classes_begun(request: IoRequest) -> int {
    match request {
        IoRequest::SaveFrame => 3,
        IoRequest::CountDevices(class) => class_stage(class) - 7,
        _ => match device_of(request) {
            Some((class, _)) => class_stage(class) - 7,
            None => 0,
        },
    }
}

#[verifier::rlimit(50)]
proof fn lemma_classes_in_turn(thread: DeviceIoThread, replies: Seq<IoReply>)
    requires
        thread.wf(),
        thread.request == IoRequest::ClearCanvas,
        thread.accepts(replies),
    ensures
        ({
            let begun = classes_begun(thread.run(replies).request);
            &&& begun >= 1 ==> asked(
                thread,
                replies,
                IoRequest::CountDevices(DeviceClass::Keyboard),
            )
            &&& begun >= 2 ==> asked(thread, replies, IoRequest::CountDevices(DeviceClass::Mouse))
            &&& begun >= 3 ==> asked(thread, replies, IoRequest::CountDevices(DeviceClass::Misc))
        }),
    decreases replies.len(),
{
    if replies.len() > 0 {
        let front = replies.drop_last();
        lemma_classes_in_turn(thread, front);
        lemma_asked_push(thread, replies);
        law_runs_stay_well_formed(thread, front);
        lemma_class_step(thread.run(front), replies.last());
    }
}

/// A step begins with a class only by counting its devices, and behind the class before.
proof fn lemma_class_step(thread: DeviceIoThread, reply: IoReply)
    requires
        thread.wf(),
        thread.fits(reply),
    ensures
        ({
            let before = classes_begun(thread.request);
            let after = thread.next(reply).request;
            ||| classes_begun(after) == 0
            ||| classes_begun(after) == before
            ||| after == IoRequest::CountDevices(DeviceClass::Keyboard)
            ||| after == IoRequest::CountDevices(DeviceClass::Mouse) && before == 1
            ||| after == IoRequest::CountDevices(DeviceClass::Misc) && before == 2
        }),
{
    match thread.request {
        IoRequest::ReadQuit => {},
        IoRequest::Receive => {},
        IoRequest::ReadGeneration => {},
        IoRequest::ClearCanvas => {},
        IoRequest::CountVms => {},
        IoRequest::SetPending(_) => {},
        IoRequest::CheckFailed(_) => {},
        IoRequest::Realize(_) => {},
        IoRequest::MarkFailed(_) => {},
        IoRequest::Await(_) => {},
        IoRequest::ReadUleds => {},
        IoRequest::BlendUleds => {},
        IoRequest::ReadSdk => {},
        IoRequest::BlendSdk => {},
        IoRequest::CountDevices(_) => {},
        IoRequest::Lock(_, _) => {},
        IoRequest::QueryInitialized(_, _) => {},
        IoRequest::SendMap(_, _) => {},
        IoRequest::QueryFailed(_, _) => {},
        IoRequest::RequestReenter(_, _) => {},
        IoRequest::Open(_, _) => {},
        IoRequest::Initialize(_, _) => {},
        IoRequest::SaveFrame => {},
        IoRequest::ReadTimer => {},
        IoRequest::ReportFps(_) => {},
        IoRequest::Stop => {},
    }
}

/// The frames that were started since the last report.
pub open spec fn frames_since_report(thread: DeviceIoThread, replies: Seq<IoReply>) -> int
    decreases replies.len(),
{
    if replies.len() == 0 {
        0
    } else {
        let front = replies.drop_last();
        let before = thread.run(front);
        match before.request {
            IoRequest::ReadGeneration => frames_since_report(thread, front) + (
            if replies.last()->Generation_0 > before.saved_generation {
                1int
            } else {
                0int
            }),
            IoRequest::ReportFps(_) => 0,
            _ => frames_since_report(thread, front),
        }
    }
}

/// The number of frames that is reported is the number of frames that were rendered since
/// the report before.
#[verifier::rlimit(50)]
pub proof fn law_reports_count_frames(replies: Seq<IoReply>)
    requires
        DeviceIoThread::initial().accepts(replies),
    ensures
        ({
            let thread = DeviceIoThread::initial().run(replies);
            let frames = frames_since_report(DeviceIoThread::initial(), replies);
            &&& thread.fps_counter == frames
            &&& thread.request matches IoRequest::ReportFps(count) ==> count == frames
        }),
    decreases replies.len(),
{
    if replies.len() > 0 {
        let front = replies.drop_last();
        law_reports_count_frames(front);
        law_runs_stay_well_formed(DeviceIoThread::initial(), front);
    }
}

/// A thread that has stopped takes no further reply.
pub proof fn law_stop_is_final(thread: DeviceIoThread, replies: Seq<IoReply>)
    requires
        thread.request == IoRequest::Stop,
        thread.accepts(replies),
    ensures
        replies.len() == 0,
    decreases replies.len(),
{
    if replies.len() > 0 {
        law_stop_is_final(thread, replies.drop_last());
    }
}

/// A new thread is at the beginning, and a step goes on to what the reply calls for.
pub proof fn law_calls_follow_the_replies(reply: IoReply)
    ensures
        forall|thread: DeviceIoThread| #[trigger]
            call_ensures(DeviceIoThread::new, (), thread) ==> thread == DeviceIoThread::initial(),
        forall|thread: &mut DeviceIoThread| #[trigger]
            call_ensures(DeviceIoThread::step, (thread, reply), ()) ==> *final(thread)
                == thread.next(reply),
{
}

} // verus!

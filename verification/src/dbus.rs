//! The thread that serves the D-Bus API.

use vstd::prelude::*;

verus! {

/// Events that are announced on D-Bus. A device is given by its USB vendor and product
/// ids; the flag of a hotplug event says whether it was removed.
#[derive(Debug, Clone, Copy)]
pub enum DbusApiEvent {
    ProfilesChanged,
    ActiveProfileChanged,
    ActiveSlotChanged,
    BrightnessChanged,
    DeviceStatusChanged,
    DeviceHotplug((u16, u16), bool),
}

/// Why the D-Bus thread ends.
#[derive(Debug, Clone, Copy, PartialEq, Eq, Structural)]
pub enum DbusError {
    /// The D-Bus interface could not be set up.
    Initialize,
    /// An event could not be announced.
    Notify,
}

/// What the thread asks for.
#[derive(Debug, Clone, Copy)]
pub enum DbusRequest {
    /// Set up the D-Bus interface. Reply: `Outcome`.
    Initialize,
    /// Wait for an event that is to be announced. Reply: `Received`.
    Receive { timeout_millis: u64 },
    /// Announce an event. Reply: `Outcome`.
    Notify(DbusApiEvent),
    /// Process an event of the bus, without waiting for one. Reply: `Polled`.
    PollBus,
    /// The thread ends.
    Stop(DbusError),
}

/// The replies to requests.
#[derive(Debug, Clone, Copy)]
pub enum DbusReply {
    /// Did the operation succeed?
    Outcome(bool),
    /// An event, unless there was none in time.
    Received(Option<DbusApiEvent>),
    /// Was there an event on the bus, if that could be told?
    Polled(Option<bool>),
}

/// The state of the D-Bus thread.
#[derive(Debug, Clone, Copy)]
pub struct DbusThread {
    /// Was there an event when the bus was last polled?
    pub event_received: bool,
    /// What the thread waits for.
    pub request: DbusRequest,
}

/// How long to wait for the next event: not at all while the bus is busy.
pub open spec fn receive_timeout(event_received: bool) -> u64 {
    if event_received {
        0
    } else {
        5
    }
}

impl DbusThread {
    /// A thread that is about to set up the interface.
    pub open spec fn initial() -> DbusThread {
        DbusThread { event_received: false, request: DbusRequest::Initialize }
    }

    /// The same state with another request.
    pub open spec fn ask(self, request: DbusRequest) -> DbusThread {
        DbusThread { request, ..self }
    }

    /// Waits for the next event.
    pub open spec fn listen(self) -> DbusThread {
        self.ask(DbusRequest::Receive { timeout_millis: receive_timeout(self.event_received) })
    }

    /// Does a reply answer the request of the thread?
    pub open spec fn fits(self, reply: DbusReply) -> bool {
        match self.request {
            DbusRequest::Initialize => reply is Outcome,
            DbusRequest::Receive { .. } => reply is Received,
            DbusRequest::Notify(_) => reply is Outcome,
            DbusRequest::PollBus => reply is Polled,
            DbusRequest::Stop(_) => false,
        }
    }

    /// The state behind a reply.
    pub open spec fn next(self, reply: DbusReply) -> DbusThread {
        match self.request {
            DbusRequest::Initialize => if reply == DbusReply::Outcome(true) {
                self.listen()
            } else {
                self.ask(DbusRequest::Stop(DbusError::Initialize))
            },
            DbusRequest::Receive { .. } => match reply->Received_0 {
                Some(event) => self.ask(DbusRequest::Notify(event)),
                None => self.ask(DbusRequest::PollBus),
            },
            DbusRequest::Notify(_) => if reply == DbusReply::Outcome(true) {
                self.listen()
            } else {
                self.ask(DbusRequest::Stop(DbusError::Notify))
            },
            DbusRequest::PollBus => DbusThread {
                event_received: reply->Polled_0 == Some(true),
                ..self
            }.listen(),
            DbusRequest::Stop(_) => self,
        }
    }

    /// What holds of the thread at all times: it waits just as long as the last look at
    /// the bus allows.
    pub open spec fn wf(self) -> bool {
        self.request matches DbusRequest::Receive { timeout_millis } ==> timeout_millis
            == receive_timeout(self.event_received)
    }

    /// Do all replies answer the requests that the thread makes one after the other?
    pub open spec fn accepts(self, replies: Seq<DbusReply>) -> bool
        decreases replies.len(),
    {
        replies.len() == 0 || (self.accepts(replies.drop_last()) && self.run(
            replies.drop_last(),
        ).fits(replies.last()))
    }

    /// The state behind a sequence of replies.
    pub open spec fn run(self, replies: Seq<DbusReply>) -> DbusThread
        decreases replies.len(),
    {
        if replies.len() == 0 {
            self
        } else {
            self.run(replies.drop_last()).next(replies.last())
        }
    }

    /// Starts the thread.
    pub fn new() -> (thread: DbusThread)
        ensures
            thread == Self::initial(),
            thread.wf(),
    {
        DbusThread { event_received: false, request: DbusRequest::Initialize }
    }

    fn wait(&mut self)
        ensures
            *final(self) == old(self).listen(),
    {
        let timeout_millis: u64 = if self.event_received {
            0
        } else {
            5
        };
        self.request = DbusRequest::Receive { timeout_millis };
    }

    /// Takes the step that the reply to the current request calls for.
    pub fn step(&mut self, reply: DbusReply)
        requires
            old(self).wf(),
            old(self).fits(reply),
        ensures
            *final(self) == old(self).next(reply),
            final(self).wf(),
    {
        match (self.request, reply) {
            (DbusRequest::Initialize, DbusReply::Outcome(initialized)) => {
                if initialized {
                    self.wait();
                } else {
                    self.request = DbusRequest::Stop(DbusError::Initialize);
                }
            },
            (DbusRequest::Receive { .. }, DbusReply::Received(event)) => {
                self.request = match event {
                    Some(event) => DbusRequest::Notify(event),
                    None => DbusRequest::PollBus,
                };
            },
            (DbusRequest::Notify(_), DbusReply::Outcome(notified)) => {
                if notified {
                    self.wait();
                } else {
                    self.request = DbusRequest::Stop(DbusError::Notify);
                }
            },
            (DbusRequest::PollBus, DbusReply::Polled(received)) => {
                self.event_received = match received {
                    Some(received) => received,
                    None => false,
                };
                self.wait();
            },
            _ => {},
        }
    }
}

/// The events that were received, in order.
pub open spec fn received(replies: Seq<DbusReply>) -> Seq<DbusApiEvent>
    decreases replies.len(),
{
    if replies.len() == 0 {
        Seq::empty()
    } else {
        let front = received(replies.drop_last());
        match replies.last() {
            DbusReply::Received(Some(event)) => front.push(event),
            _ => front,
        }
    }
}

/// The events whose announcement was asked for, in order.
pub open spec fn announced(thread: DbusThread, replies: Seq<DbusReply>) -> Seq<DbusApiEvent>
    decreases replies.len(),
{
    if replies.len() == 0 {
        Seq::empty()
    } else {
        let front = announced(thread, replies.drop_last());
        match thread.run(replies).request {
            DbusRequest::Notify(event) => front.push(event),
            _ => front,
        }
    }
}

/// Every event that is received is announced exactly once, in the order of arrival, and
/// nothing else is.
pub proof fn law_events_are_announced(replies: Seq<DbusReply>)
    requires
        DbusThread::initial().accepts(replies),
    ensures
        announced(DbusThread::initial(), replies) == received(replies),
    decreases replies.len(),
{
    if replies.len() > 0 {
        law_events_are_announced(replies.drop_last());
    }
}

/// Did the bus have an event when it was last polled?
pub open spec fn bus_busy(replies: Seq<DbusReply>) -> bool
    decreases replies.len(),
{
    replies.len() > 0 && match replies.last() {
        DbusReply::Polled(received) => received == Some(true),
        _ => bus_busy(replies.drop_last()),
    }
}

/// The thread waits for events only while the last poll of the bus found nothing or
/// failed.
pub proof fn law_waits_unless_bus_is_busy(replies: Seq<DbusReply>)
    requires
        DbusThread::initial().accepts(replies),
    ensures
        ({
            let thread = DbusThread::initial().run(replies);
            &&& thread.event_received == bus_busy(replies)
            &&& thread.request matches DbusRequest::Receive { timeout_millis } ==> timeout_millis
                == receive_timeout(bus_busy(replies))
        }),
    decreases replies.len(),
{
    if replies.len() > 0 {
        law_waits_unless_bus_is_busy(replies.drop_last());
    }
}

/// The interface is set up first, and an event is awaited then.
pub proof fn law_thread_begins_with_interface()
    ensures
        DbusThread::initial() == (DbusThread {
            event_received: false,
            request: DbusRequest::Initialize,
        }),
        DbusThread::initial().wf(),
{
}

/// An event that comes in time is announced. If none comes, the bus is polled; if the bus had
/// an event, the thread does not wait for the next one, and otherwise for 5 milliseconds. The
/// thread ends only if the interface cannot be set up or an event cannot be announced.
pub proof fn law_dbus_dialog(thread: DbusThread, event: DbusApiEvent)
    ensures
        thread.request == DbusRequest::Initialize ==> {
            &&& thread.fits(DbusReply::Outcome(true))
            &&& thread.next(DbusReply::Outcome(true)) == (DbusThread {
                request: DbusRequest::Receive {
                    timeout_millis: if thread.event_received {
                        0
                    } else {
                        5
                    },
                },
                ..thread
            })
            &&& thread.fits(DbusReply::Outcome(false))
            &&& thread.next(DbusReply::Outcome(false)) == (DbusThread {
                request: DbusRequest::Stop(DbusError::Initialize),
                ..thread
            })
        },
        thread.request is Receive ==> {
            &&& thread.fits(DbusReply::Received(Some(event)))
            &&& thread.next(DbusReply::Received(Some(event))) == (DbusThread {
                request: DbusRequest::Notify(event),
                ..thread
            })
            &&& thread.fits(DbusReply::Received(None))
            &&& thread.next(DbusReply::Received(None)) == (DbusThread {
                request: DbusRequest::PollBus,
                ..thread
            })
        },
        thread.request is Notify ==> {
            &&& thread.fits(DbusReply::Outcome(true))
            &&& thread.next(DbusReply::Outcome(true)) == (DbusThread {
                request: DbusRequest::Receive {
                    timeout_millis: if thread.event_received {
                        0
                    } else {
                        5
                    },
                },
                ..thread
            })
            &&& thread.fits(DbusReply::Outcome(false))
            &&& thread.next(DbusReply::Outcome(false)) == (DbusThread {
                request: DbusRequest::Stop(DbusError::Notify),
                ..thread
            })
        },
        thread.request == DbusRequest::PollBus ==> {
            &&& thread.fits(DbusReply::Polled(Some(true)))
            &&& thread.next(DbusReply::Polled(Some(true))) == (DbusThread {
                event_received: true,
                request: DbusRequest::Receive { timeout_millis: 0 },
            })
            &&& thread.fits(DbusReply::Polled(Some(false)))
            &&& thread.next(DbusReply::Polled(Some(false))) == (DbusThread {
                event_received: false,
                request: DbusRequest::Receive { timeout_millis: 5 },
            })
            &&& thread.fits(DbusReply::Polled(None))
            &&& thread.next(DbusReply::Polled(None)) == (DbusThread {
                event_received: false,
                request: DbusRequest::Receive { timeout_millis: 5 },
            })
        },
{
}

/// A thread that has stopped takes no further reply.
pub proof fn law_stop_is_final(thread: DbusThread, replies: Seq<DbusReply>)
    requires
        thread.request is Stop,
        thread.accepts(replies),
    ensures
        replies.len() == 0,
    decreases replies.len(),
{
    if replies.len() > 0 {
        law_stop_is_final(thread, replies.drop_last());
    }
}

/// A new thread is at the beginning, and a step goes on to what the reply calls for.
pub proof fn law_calls_follow_the_replies(reply: DbusReply)
    ensures
        forall|thread: DbusThread| #[trigger]
            call_ensures(DbusThread::new, (), thread) ==> thread == DbusThread::initial(),
        forall|thread: &mut DbusThread| #[trigger]
            call_ensures(DbusThread::step, (thread, reply), ()) ==> *final(thread) == thread.next(
                reply,
            ),
{
}

} // verus!

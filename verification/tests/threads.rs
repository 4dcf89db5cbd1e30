use eruption::about::{AboutPage, Element};
use eruption::color::{blend_overlay, blend_pixel, clear_canvas, RGBA};
use eruption::dbus::{DbusApiEvent, DbusError, DbusReply, DbusRequest, DbusThread};
use eruption::device_io::{DeviceClass, DeviceIoThread, IoReply, IoRequest};
use eruption::input::{
    record_press, thread_name, EvdevError, EventCode, InputError, InputEvent, InputKind,
    InputOutcome, InputReply, InputRequest, InputThread, ReenterCause, RelCode, SynCode,
};
use eruption::lua::{
    lua_thread_name, LaunchOutcome, LaunchPhase, LaunchRequest, LuaLauncher, LuaOutcome, LuaReply,
    LuaRequest, LuaThread, RunScriptResult,
};
use eruption::path::FilePath;

// ---- device I/O ----

fn io_thread(replies: &[IoReply]) -> DeviceIoThread {
    let mut thread = DeviceIoThread::new();
    for reply in replies {
        thread.step(*reply);
    }
    thread
}

/// Takes steps and collects the requests behind them.
fn io_trace(thread: &mut DeviceIoThread, replies: &[IoReply]) -> Vec<IoRequest> {
    let mut requests = Vec::new();
    for reply in replies {
        thread.step(*reply);
        requests.push(thread.request);
    }
    requests
}

fn start_frame(generation: usize, total: usize, failed: usize) -> DeviceIoThread {
    io_thread(&[
        IoReply::Flag(false),
        IoReply::Outcome(true),
        IoReply::Generation(generation),
        IoReply::Done,
        IoReply::Vms { total, failed },
        IoReply::Done,
    ])
}

#[test]
fn device_io_starts_with_the_quit_flag() {
    assert_eq!(io_thread(&[]).request, IoRequest::ReadQuit);
    assert_eq!(io_thread(&[IoReply::Flag(true)]).request, IoRequest::Stop);
    assert_eq!(io_thread(&[IoReply::Flag(false)]).request, IoRequest::Receive);
    let failed = io_thread(&[IoReply::Flag(false), IoReply::Outcome(false)]);
    assert_eq!(failed.request, IoRequest::ReadQuit);
}

#[test]
fn only_newer_generations_are_rendered() {
    let idle = io_thread(&[IoReply::Flag(false), IoReply::Outcome(true), IoReply::Generation(0)]);
    assert_eq!(idle.request, IoRequest::ReadTimer);
    assert_eq!(idle.fps_counter, 0);
    let busy = io_thread(&[IoReply::Flag(false), IoReply::Outcome(true), IoReply::Generation(1)]);
    assert_eq!(busy.request, IoRequest::ClearCanvas);
    assert_eq!(busy.fps_counter, 1);
}

#[test]
fn pending_operations_leave_out_failed_vms() {
    let mut thread =
        io_thread(&[IoReply::Flag(false), IoReply::Outcome(true), IoReply::Generation(1)]);
    let requests =
        io_trace(&mut thread, &[IoReply::Done, IoReply::Vms { total: 5, failed: 2 }, IoReply::Done]);
    assert_eq!(
        requests,
        vec![IoRequest::CountVms, IoRequest::SetPending(3), IoRequest::CheckFailed(0)]
    );
}

#[test]
fn healthy_vms_blend_in_order() {
    let mut thread = start_frame(1, 2, 0);
    let vm = [IoReply::Flag(false), IoReply::Outcome(true), IoReply::Flag(false)];
    let mut requests = io_trace(&mut thread, &vm);
    requests.extend(io_trace(&mut thread, &vm));
    assert_eq!(
        requests,
        vec![
            IoRequest::Realize(0),
            IoRequest::Await(0),
            IoRequest::CheckFailed(1),
            IoRequest::Realize(1),
            IoRequest::Await(1),
            IoRequest::ReadUleds,
        ]
    );
    assert!(!thread.drop_frame);
}

#[test]
fn a_failed_vm_is_skipped_and_drops_the_frame() {
    let mut thread = start_frame(1, 2, 1);
    let requests = io_trace(
        &mut thread,
        &[
            IoReply::Flag(true),
            IoReply::Flag(false),
            IoReply::Outcome(true),
            IoReply::Flag(false),
            IoReply::Flag(false),
            IoReply::Flag(false),
        ],
    );
    assert_eq!(
        requests,
        vec![
            IoRequest::CheckFailed(1),
            IoRequest::Realize(1),
            IoRequest::Await(1),
            IoRequest::ReadUleds,
            IoRequest::ReadSdk,
            IoRequest::ReadTimer,
        ]
    );
    assert_eq!(thread.saved_generation, 0);
    assert_eq!(thread.fps_counter, 1);
}

#[test]
fn a_vm_that_cannot_be_reached_is_marked_and_still_awaited() {
    let mut thread = start_frame(1, 1, 0);
    let requests = io_trace(
        &mut thread,
        &[IoReply::Flag(false), IoReply::Outcome(false), IoReply::Done, IoReply::Flag(false)],
    );
    assert_eq!(
        requests,
        vec![
            IoRequest::Realize(0),
            IoRequest::MarkFailed(0),
            IoRequest::Await(0),
            IoRequest::ReadUleds,
        ]
    );
    assert!(!thread.drop_frame);
}

#[test]
fn a_timeout_ends_the_vms_and_drops_the_frame() {
    let mut thread = start_frame(1, 3, 0);
    let requests = io_trace(
        &mut thread,
        &[
            IoReply::Flag(false),
            IoReply::Outcome(true),
            IoReply::Flag(true),
            IoReply::Flag(true),
            IoReply::Done,
            IoReply::Flag(true),
            IoReply::Done,
        ],
    );
    assert_eq!(
        requests,
        vec![
            IoRequest::Realize(0),
            IoRequest::Await(0),
            IoRequest::ReadUleds,
            IoRequest::BlendUleds,
            IoRequest::ReadSdk,
            IoRequest::BlendSdk,
            IoRequest::ReadTimer,
        ]
    );
}

fn deliver(classes: &[&[IoReply]]) -> (DeviceIoThread, Vec<IoRequest>) {
    let mut thread = start_frame(7, 0, 0);
    let mut requests = io_trace(&mut thread, &[IoReply::Flag(false), IoReply::Flag(false)]);
    for replies in classes {
        requests.extend(io_trace(&mut thread, replies));
    }
    (thread, requests)
}

#[test]
fn a_complete_frame_reaches_all_devices_and_is_saved_once() {
    let (mut thread, requests) = deliver(&[
        &[IoReply::Count(1), IoReply::Flag(true), IoReply::Status(Some(true)), IoReply::Outcome(true)],
        &[IoReply::Count(0)],
        &[IoReply::Count(1), IoReply::Flag(true), IoReply::Status(Some(true)), IoReply::Outcome(true)],
    ]);
    assert_eq!(
        requests,
        vec![
            IoRequest::ReadSdk,
            IoRequest::CountDevices(DeviceClass::Keyboard),
            IoRequest::Lock(DeviceClass::Keyboard, 0),
            IoRequest::QueryInitialized(DeviceClass::Keyboard, 0),
            IoRequest::SendMap(DeviceClass::Keyboard, 0),
            IoRequest::CountDevices(DeviceClass::Mouse),
            IoRequest::CountDevices(DeviceClass::Misc),
            IoRequest::Lock(DeviceClass::Misc, 0),
            IoRequest::QueryInitialized(DeviceClass::Misc, 0),
            IoRequest::SendMap(DeviceClass::Misc, 0),
            IoRequest::SaveFrame,
        ]
    );
    let requests = io_trace(
        &mut thread,
        &[
            IoReply::Done,
            IoReply::Elapsed(999),
            IoReply::Flag(false),
            IoReply::Outcome(true),
            IoReply::Generation(7),
        ],
    );
    assert_eq!(thread.saved_generation, 7);
    assert_eq!(
        requests,
        vec![
            IoRequest::ReadTimer,
            IoRequest::ReadQuit,
            IoRequest::Receive,
            IoRequest::ReadGeneration,
            IoRequest::ReadTimer,
        ]
    );
}

#[test]
fn trouble_with_one_device_is_contained() {
    let (thread, requests) = deliver(&[&[
        IoReply::Count(6),
        IoReply::Flag(false),
        IoReply::Flag(true),
        IoReply::Status(None),
        IoReply::Flag(true),
        IoReply::Status(Some(false)),
        IoReply::Outcome(false),
        IoReply::Outcome(false),
        IoReply::Flag(true),
        IoReply::Status(Some(true)),
        IoReply::Outcome(false),
        IoReply::Status(Some(false)),
        IoReply::Flag(true),
        IoReply::Status(Some(true)),
        IoReply::Outcome(false),
        IoReply::Status(Some(true)),
        IoReply::Done,
        IoReply::Flag(true),
        IoReply::Status(Some(true)),
        IoReply::Outcome(false),
        IoReply::Status(None),
        IoReply::Done,
    ]]);
    let class = DeviceClass::Keyboard;
    assert_eq!(
        requests[2..],
        [
            IoRequest::Lock(class, 0),
            IoRequest::Lock(class, 1),
            IoRequest::QueryInitialized(class, 1),
            IoRequest::Lock(class, 2),
            IoRequest::QueryInitialized(class, 2),
            IoRequest::Open(class, 2),
            IoRequest::Initialize(class, 2),
            IoRequest::Lock(class, 3),
            IoRequest::QueryInitialized(class, 3),
            IoRequest::SendMap(class, 3),
            IoRequest::QueryFailed(class, 3),
            IoRequest::Lock(class, 4),
            IoRequest::QueryInitialized(class, 4),
            IoRequest::SendMap(class, 4),
            IoRequest::QueryFailed(class, 4),
            IoRequest::RequestReenter(class, 4),
            IoRequest::Lock(class, 5),
            IoRequest::QueryInitialized(class, 5),
            IoRequest::SendMap(class, 5),
            IoRequest::QueryFailed(class, 5),
            IoRequest::RequestReenter(class, 5),
            IoRequest::CountDevices(DeviceClass::Mouse),
        ]
    );
    assert!(!thread.drop_frame);
}

/// Renders two frames with two VMs and one device, and collects what the device gets.
fn rendered(uleds: bool, sdk: bool) -> Vec<Vec<RGBA>> {
    let gray = |level: u8, a: u8| RGBA { r: level, g: level, b: level, a };
    let maps = [vec![gray(200, 128); 2], vec![gray(80, 64); 2]];
    let mut canvas = vec![gray(255, 255); 2];
    let mut sent = Vec::new();
    let mut thread = DeviceIoThread::new();
    let mut generation = 0;
    while sent.len() < 2 {
        let reply = match thread.request {
            IoRequest::ReadGeneration => {
                generation += 1;
                IoReply::Generation(generation)
            }
            IoRequest::ClearCanvas => {
                clear_canvas(&mut canvas);
                IoReply::Done
            }
            IoRequest::CountVms => IoReply::Vms { total: 2, failed: 0 },
            IoRequest::Await(index) => {
                for pixel in canvas.iter_mut() {
                    pixel.r = pixel.r * 10 + index as u8 + 1;
                }
                IoReply::Flag(false)
            }
            IoRequest::ReadUleds => IoReply::Flag(uleds),
            IoRequest::ReadSdk => IoReply::Flag(sdk),
            IoRequest::BlendUleds => {
                blend_overlay(&mut canvas, &maps[0], 50);
                IoReply::Done
            }
            IoRequest::BlendSdk => {
                blend_overlay(&mut canvas, &maps[1], 100);
                IoReply::Done
            }
            IoRequest::CountDevices(DeviceClass::Keyboard) => IoReply::Count(1),
            IoRequest::CountDevices(_) => IoReply::Count(0),
            IoRequest::Lock(_, _) => IoReply::Flag(true),
            IoRequest::QueryInitialized(_, _) => IoReply::Status(Some(true)),
            IoRequest::SendMap(_, _) => {
                sent.push(canvas.clone());
                IoReply::Outcome(true)
            }
            IoRequest::ReadTimer => IoReply::Elapsed(0),
            IoRequest::ReadQuit | IoRequest::CheckFailed(_) => IoReply::Flag(false),
            IoRequest::Receive | IoRequest::Realize(_) => IoReply::Outcome(true),
            _ => IoReply::Done,
        };
        thread.step(reply);
    }
    sent
}

#[test]
fn a_delivered_canvas_is_composed_of_all_layers() {
    let vms = RGBA { r: 12, g: 0, b: 0, a: 0 };
    let uleds = RGBA { r: 200, g: 200, b: 200, a: 128 };
    let sdk = RGBA { r: 80, g: 80, b: 80, a: 64 };
    assert_eq!(rendered(false, false), vec![vec![vms; 2]; 2]);
    let below = blend_pixel(uleds, vms, 50);
    assert_eq!(below, RGBA { r: 52, g: 50, b: 50, a: 128 });
    assert_eq!(rendered(true, false), vec![vec![below; 2]; 2]);
    assert_eq!(rendered(false, true), vec![vec![blend_pixel(sdk, vms, 100); 2]; 2]);
    assert_eq!(rendered(true, true), vec![vec![blend_pixel(sdk, below, 100); 2]; 2]);
}

#[test]
fn every_vm_gets_its_turn_unless_one_times_out() {
    let mut thread = start_frame(1, 3, 1);
    let mut requests = vec![thread.request];
    requests.extend(io_trace(
        &mut thread,
        &[
            // cannot be reached
            IoReply::Flag(false),
            IoReply::Outcome(false),
            IoReply::Done,
            IoReply::Flag(false),
            // failed before
            IoReply::Flag(true),
            // does its part
            IoReply::Flag(false),
            IoReply::Outcome(true),
            IoReply::Flag(false),
        ],
    ));
    assert_eq!(thread.request, IoRequest::ReadUleds);
    for index in 0..3 {
        assert!(requests.contains(&IoRequest::CheckFailed(index)));
    }
}

#[test]
fn every_device_of_a_class_gets_its_turn() {
    let mut thread = start_frame(1, 0, 0);
    io_trace(&mut thread, &[IoReply::Flag(false), IoReply::Flag(false)]);
    assert_eq!(thread.request, IoRequest::CountDevices(DeviceClass::Keyboard));
    let requests = io_trace(
        &mut thread,
        &[
            IoReply::Count(3),
            // locked elsewhere
            IoReply::Flag(false),
            // not initialized
            IoReply::Flag(true),
            IoReply::Status(Some(false)),
            IoReply::Outcome(false),
            IoReply::Outcome(false),
            // works
            IoReply::Flag(true),
            IoReply::Status(Some(true)),
            IoReply::Outcome(true),
        ],
    );
    assert_eq!(thread.request, IoRequest::CountDevices(DeviceClass::Mouse));
    for index in 0..3 {
        assert!(requests.contains(&IoRequest::Lock(DeviceClass::Keyboard, index)));
    }
}

#[test]
fn frames_are_reported_each_second() {
    let (mut thread, _) = deliver(&[&[IoReply::Count(0), IoReply::Count(0), IoReply::Count(0)]]);
    let requests =
        io_trace(&mut thread, &[IoReply::Done, IoReply::Elapsed(1000), IoReply::Done]);
    assert_eq!(
        requests,
        vec![IoRequest::ReadTimer, IoRequest::ReportFps(1), IoRequest::ReadQuit]
    );
    assert_eq!(thread.fps_counter, 0);
}

// ---- input ----

fn event(code: EventCode, value: i32) -> InputEvent {
    InputEvent { code, value }
}

fn input_thread(kind: InputKind) -> InputThread {
    let mut thread = InputThread::new(kind, 0x1e7d, 0x3098);
    assert_eq!(thread.request, InputRequest::FindDevice { usb_vid: 0x1e7d, usb_pid: 0x3098 });
    for _ in 0..4 {
        thread.step(InputReply::Outcome(true));
    }
    assert_eq!(thread.request, InputRequest::ReadQuit);
    thread.step(InputReply::Flag(false));
    if kind == InputKind::Keyboard {
        assert_eq!(thread.request, InputRequest::ReadFailed);
        thread.step(InputReply::Status(Some(false)));
    }
    assert_eq!(thread.request, InputRequest::Poll);
    thread
}

fn input_trace(kind: InputKind, replies: &[InputReply]) -> Vec<InputRequest> {
    let mut thread = input_thread(kind);
    let mut requests = Vec::new();
    for reply in replies {
        thread.step(*reply);
        requests.push(thread.request);
    }
    requests
}

fn failed(error: InputError) -> InputRequest {
    InputRequest::Stop(InputOutcome::Failed(error))
}

#[test]
fn events_are_forwarded_in_the_order_of_reading() {
    let events = [
        event(EventCode::Key(272), 1),
        event(EventCode::Rel(RelCode::X), -3),
        event(EventCode::Syn(SynCode::Report), 0),
        event(EventCode::Key(272), 1),
        event(EventCode::Other, 7),
    ];
    for kind in [InputKind::Keyboard, InputKind::Mouse, InputKind::Misc] {
        let mut thread = input_thread(kind);
        let mut unread = events.to_vec();
        let mut before = thread.request;
        let mut mirrored = Vec::new();
        let mut forwarded = Vec::new();
        while !(unread.is_empty() && thread.request == InputRequest::Poll) {
            let reply = match thread.request {
                InputRequest::Poll => InputReply::Event(unread.remove(0)),
                InputRequest::FindIndex(_, _) => InputReply::Index(Some(1)),
                InputRequest::ReadGrab(_) => InputReply::Flag(true),
                InputRequest::Mirror(_) | InputRequest::Forward(_) => InputReply::Outcome(false),
                InputRequest::ReadQuit => InputReply::Flag(false),
                InputRequest::ReadFailed => InputReply::Status(Some(false)),
                _ => InputReply::Done,
            };
            thread.step(reply);
            if let InputRequest::Mirror(event) = thread.request {
                mirrored.push(event);
            }
            if let InputRequest::Forward(event) = thread.request {
                forwarded.push(event);
                if kind == InputKind::Misc {
                    assert_eq!(before, InputRequest::Mirror(event));
                }
            }
            before = thread.request;
        }
        assert_eq!(forwarded, events.to_vec());
        match kind {
            InputKind::Keyboard => assert_eq!(mirrored, vec![]),
            InputKind::Mouse => assert_eq!(mirrored, vec![events[1], events[2]]),
            InputKind::Misc => assert_eq!(mirrored, events.to_vec()),
        }
    }
}

#[test]
fn opening_reports_the_first_error() {
    let errors = [EvdevError::UdevError, EvdevError::EvdevError, EvdevError::EvdevHandleError];
    for (successes, error) in errors.iter().enumerate() {
        let mut thread = InputThread::new(InputKind::Mouse, 1, 2);
        for _ in 0..successes {
            thread.step(InputReply::Outcome(true));
        }
        thread.step(InputReply::Outcome(false));
        assert_eq!(thread.request, failed(InputError::Evdev(*error)));
    }
}

#[test]
fn a_device_that_cannot_be_grabbed_is_used_anyway() {
    let mut thread = InputThread::new(InputKind::Misc, 1, 2);
    for success in [true, true, true, false] {
        thread.step(InputReply::Outcome(success));
    }
    assert_eq!(thread.request, InputRequest::ReadQuit);
    thread.step(InputReply::Flag(true));
    assert_eq!(thread.request, InputRequest::Stop(InputOutcome::Finished));
}

#[test]
fn a_failed_keyboard_ends_its_thread() {
    let mut thread = InputThread::new(InputKind::Keyboard, 1, 2);
    for _ in 0..4 {
        thread.step(InputReply::Outcome(true));
    }
    thread.step(InputReply::Flag(false));
    let mut unknown = thread;
    thread.step(InputReply::Status(Some(true)));
    assert_eq!(thread.request, InputRequest::RequestReenter(ReenterCause::FailedDevice));
    thread.step(InputReply::Done);
    assert_eq!(thread.request, InputRequest::Stop(InputOutcome::Finished));
    unknown.step(InputReply::Status(None));
    assert_eq!(unknown.request, failed(InputError::Device));
}

#[test]
fn keyboard_keys_are_tracked_and_forwarded() {
    for (value, pressed) in [(1, true), (2, true), (0, false), (-1, false)] {
        let key = event(EventCode::Key(30), value);
        let requests = input_trace(
            InputKind::Keyboard,
            &[
                InputReply::Event(key),
                InputReply::Done,
                InputReply::Index(Some(17)),
                InputReply::Done,
                InputReply::Outcome(false),
                InputReply::Done,
            ],
        );
        assert_eq!(
            requests,
            vec![
                InputRequest::ResetDrop(key),
                InputRequest::FindIndex(key, 30),
                InputRequest::SetState(key, 17, pressed),
                InputRequest::Forward(key),
                InputRequest::TouchTimer(key),
                InputRequest::ReadQuit,
            ]
        );
    }
}

#[test]
fn other_keyboard_events_are_only_forwarded() {
    for code in [
        EventCode::Syn(SynCode::Dropped),
        EventCode::Syn(SynCode::Report),
        EventCode::Rel(RelCode::X),
        EventCode::Other,
    ] {
        let other = event(code, 1);
        let requests =
            input_trace(InputKind::Keyboard, &[InputReply::Event(other), InputReply::Done]);
        assert_eq!(requests, vec![InputRequest::ResetDrop(other), InputRequest::Forward(other)]);
    }
}

#[test]
fn mouse_motion_is_mirrored_while_grabbed() {
    for code in [
        EventCode::Rel(RelCode::X),
        EventCode::Rel(RelCode::Misc),
        EventCode::Syn(SynCode::Report),
    ] {
        let motion = event(code, -4);
        let requests = input_trace(
            InputKind::Mouse,
            &[
                InputReply::Event(motion),
                InputReply::Done,
                InputReply::Flag(true),
                InputReply::Outcome(false),
            ],
        );
        assert_eq!(
            requests,
            vec![
                InputRequest::ResetDrop(motion),
                InputRequest::ReadGrab(motion),
                InputRequest::Mirror(motion),
                InputRequest::Forward(motion),
            ]
        );
        let requests = input_trace(
            InputKind::Mouse,
            &[InputReply::Event(motion), InputReply::Done, InputReply::Flag(false)],
        );
        assert_eq!(requests[2], InputRequest::Forward(motion));
    }
}

#[test]
fn mouse_wheels_are_not_mirrored() {
    for code in
        [RelCode::Wheel, RelCode::HWheel, RelCode::WheelHiRes, RelCode::HWheelHiRes]
    {
        let wheel = event(EventCode::Rel(code), 1);
        let requests = input_trace(InputKind::Mouse, &[InputReply::Event(wheel), InputReply::Done]);
        assert_eq!(requests[1], InputRequest::Forward(wheel));
    }
    let other = event(EventCode::Other, 1);
    let requests = input_trace(InputKind::Mouse, &[InputReply::Event(other), InputReply::Done]);
    assert_eq!(requests[1], InputRequest::Forward(other));
}

#[test]
fn mouse_buttons_without_an_index_are_only_forwarded() {
    let button = event(EventCode::Key(272), 1);
    let replies = [InputReply::Event(button), InputReply::Done, InputReply::Index(None)];
    assert_eq!(input_trace(InputKind::Mouse, &replies)[2], InputRequest::Forward(button));
    let replies = [InputReply::Event(button), InputReply::Done, InputReply::Index(Some(3))];
    assert_eq!(input_trace(InputKind::Mouse, &replies)[2], InputRequest::SetState(button, 3, true));
}

#[test]
fn a_mouse_that_dropped_events_is_synchronized() {
    let dropped = event(EventCode::Syn(SynCode::Dropped), 0);
    let replies = [InputReply::Event(dropped), InputReply::Done, InputReply::Outcome(true)];
    let requests = input_trace(InputKind::Mouse, &replies);
    assert_eq!(requests[1], InputRequest::Resync(dropped));
    assert_eq!(requests[2], InputRequest::Forward(dropped));
    let replies = [InputReply::Event(dropped), InputReply::Done, InputReply::Outcome(false)];
    assert_eq!(input_trace(InputKind::Mouse, &replies)[2], failed(InputError::Resync));
}

#[test]
fn misc_events_are_always_mirrored() {
    for code in [EventCode::Key(1), EventCode::Rel(RelCode::Wheel), EventCode::Other] {
        let any = event(code, 0);
        let requests = input_trace(
            InputKind::Misc,
            &[
                InputReply::Event(any),
                InputReply::Outcome(true),
                InputReply::Outcome(true),
                InputReply::Done,
            ],
        );
        assert_eq!(
            requests,
            vec![
                InputRequest::Mirror(any),
                InputRequest::Forward(any),
                InputRequest::TouchTimer(any),
                InputRequest::ReadQuit,
            ]
        );
    }
}

#[test]
fn a_lost_device_reenters_the_main_loop() {
    for kind in [InputKind::Keyboard, InputKind::Mouse, InputKind::Misc] {
        for (code, cause) in
            [(libc::ENODEV, ReenterCause::DeviceGone), (libc::EIO, ReenterCause::ReadFailed)]
        {
            assert_eq!(
                input_trace(kind, &[InputReply::Fault(code), InputReply::Done]),
                vec![
                    InputRequest::RequestReenter(cause),
                    failed(InputError::Evdev(EvdevError::EvdevEventError)),
                ]
            );
        }
    }
}

#[test]
fn the_last_change_of_a_key_counts() {
    let mut states = vec![false; 4];
    for (index, pressed) in [(1, true), (2, true), (1, false), (3, true)] {
        record_press(&mut states, index, pressed);
    }
    assert_eq!(states, vec![false, false, true, true]);
}

#[test]
fn input_threads_are_named_after_their_device() {
    assert_eq!(thread_name(InputKind::Keyboard, 0), "events/kbd:0");
    assert_eq!(thread_name(InputKind::Mouse, 12), "events/mouse:12");
    assert_eq!(thread_name(InputKind::Misc, 345), "events/misc:345");
}

// ---- D-Bus ----

fn timeout(thread: &DbusThread) -> u64 {
    match thread.request {
        DbusRequest::Receive { timeout_millis } => timeout_millis,
        other => panic!("{:?}", other),
    }
}

#[test]
fn dbus_waits_only_while_the_bus_is_idle() {
    let mut thread = DbusThread::new();
    thread.step(DbusReply::Outcome(true));
    assert_eq!(timeout(&thread), 5);
    for (polled, millis) in [(Some(true), 0), (None, 5), (Some(true), 0), (Some(false), 5)] {
        thread.step(DbusReply::Received(None));
        assert!(matches!(thread.request, DbusRequest::PollBus));
        thread.step(DbusReply::Polled(polled));
        assert_eq!(timeout(&thread), millis);
    }
}

#[test]
fn dbus_events_are_announced() {
    let mut thread = DbusThread::new();
    thread.step(DbusReply::Outcome(true));
    thread.step(DbusReply::Received(None));
    thread.step(DbusReply::Polled(Some(true)));
    let hotplug = DbusApiEvent::DeviceHotplug((1, 2), true);
    thread.step(DbusReply::Received(Some(hotplug)));
    assert!(matches!(
        thread.request,
        DbusRequest::Notify(DbusApiEvent::DeviceHotplug((1, 2), true))
    ));
    thread.step(DbusReply::Outcome(true));
    assert_eq!(timeout(&thread), 0);
    thread.step(DbusReply::Received(Some(DbusApiEvent::ProfilesChanged)));
    assert!(matches!(thread.request, DbusRequest::Notify(DbusApiEvent::ProfilesChanged)));
    thread.step(DbusReply::Outcome(false));
    assert!(matches!(thread.request, DbusRequest::Stop(DbusError::Notify)));
}

#[test]
fn dbus_ends_without_an_interface() {
    let mut thread = DbusThread::new();
    assert!(matches!(thread.request, DbusRequest::Initialize));
    thread.step(DbusReply::Outcome(false));
    assert!(matches!(thread.request, DbusRequest::Stop(DbusError::Initialize)));
}

// ---- Lua ----

fn read_path(launcher: &LuaLauncher) -> String {
    match launcher.request() {
        LaunchRequest::ReadFile(path) => path.display(),
        other => panic!("{:?}", other),
    }
}

#[test]
fn scripts_start_once_their_files_are_accessible() {
    let mut launcher = LuaLauncher::new(3, FilePath::from_text("/scripts/rainbow.lua"));
    assert_eq!(read_path(&launcher), "/scripts/rainbow.lua");
    launcher.step(true);
    assert_eq!(read_path(&launcher), "/scripts/rainbow.lua.manifest");
    launcher.step(true);
    match launcher.request() {
        LaunchRequest::Spawn(name) => assert_eq!(name, "3:rainbow.lua"),
        other => panic!("{:?}", other),
    }
    launcher.step(true);
    assert!(matches!(launcher.request(), LaunchRequest::Stop(LaunchOutcome::Started)));
}

#[test]
fn scripts_do_not_start_without_their_files() {
    for accessible in 0..3 {
        let mut launcher = LuaLauncher::new(0, FilePath::from_text("x.lua"));
        for _ in 0..accessible {
            launcher.step(true);
        }
        launcher.step(false);
        let outcome = if accessible < 2 {
            LaunchOutcome::ScriptExecError
        } else {
            LaunchOutcome::SpawnError
        };
        assert_eq!(launcher.phase, LaunchPhase::Over(outcome));
        launcher.step(true);
        assert_eq!(launcher.phase, LaunchPhase::Over(outcome));
    }
}

#[test]
fn script_threads_are_named_after_their_script() {
    assert_eq!(lua_thread_name(10, &FilePath::from_text("/a/b.lua")), "10:b.lua");
    let path = FilePath { bytes: vec![b'/', 0xff, b'x'] };
    assert_eq!(lua_thread_name(0, &path), "0:\u{fffd}x");
}

#[test]
fn a_graceful_script_ends_without_an_error() {
    let mut thread = LuaThread::new(4);
    assert_eq!(thread.request, LuaRequest::RunScript);
    thread.step(LuaReply::Ended(RunScriptResult::TerminatedGracefully));
    assert_eq!(thread.request, LuaRequest::Stop(LuaOutcome::Finished));
}

#[test]
fn a_failed_script_enters_the_failsafe_mode() {
    for result in [RunScriptResult::TerminatedWithErrors, RunScriptResult::UnknownError] {
        let mut thread = LuaThread::new(4);
        thread.step(LuaReply::Ended(result));
        assert_eq!(thread.request, LuaRequest::MarkFailed(4));
        thread.step(LuaReply::Done);
        assert_eq!(thread.request, LuaRequest::RequestFailsafe);
        thread.step(LuaReply::Done);
        assert_eq!(thread.request, LuaRequest::Stop(LuaOutcome::ScriptExecError));
    }
}

// ---- user interface ----

#[test]
fn the_about_page_names_the_authors() {
    let page = AboutPage::new();
    let elements: Vec<(u8, &str)> = page
        .elements()
        .iter()
        .map(|element| match element {
            Element::Heading(text) => (0, *text),
            Element::Separator => (1, ""),
            Element::Label(text) => (2, *text),
        })
        .collect();
    assert_eq!(
        elements,
        vec![
            (0, "About Pyroclasm UI for Eruption"),
            (1, ""),
            (2, "Authors:"),
            (2, "X3n0m0rph59 <x3n0m0rph59@gmail.com>"),
            (2, "The Eruption Development Team"),
            (2, "GPL3 or later"),
        ]
    );
    assert_eq!(AboutPage::default().elements().len(), 6);
}

//! What is on the canvas while the device I/O thread renders its frames.

use vstd::prelude::*;
use crate::color::{
    cleared, law_overlay_is_monotonic, nowhere_brighter, overlaid, transparent, RGBA,
};
use crate::device_io::{law_runs_stay_well_formed, DeviceIoThread, IoReply, IoRequest};

verus! {

/// What goes into one frame.
pub struct Layers {
    /// What becomes of the canvas until the wait for the VM with an index is over.
    pub vm: spec_fn(int, Seq<RGBA>) -> Seq<RGBA>,
    /// The LED map of the userspace LEDs plugin, and the brightness that it is blended with.
    pub uleds: Seq<RGBA>,
    pub uleds_brightness: int,
    /// The LED map of the SDK plugin, and the brightness that it is blended with.
    pub sdk: Seq<RGBA>,
    pub sdk_brightness: int,
}

impl Layers {
    /// No VM changes the size of the canvas.
    pub open spec fn keep_size(self) -> bool {
        forall|index: int, canvas: Seq<RGBA>|
            (#[trigger] (self.vm)(index, canvas)).len() == canvas.len()
    }

    /// The same layers with other brightnesses.
    pub open spec fn at_brightness(self, uleds_brightness: int, sdk_brightness: int) -> Layers {
        Layers { uleds_brightness, sdk_brightness, ..self }
    }
}

/// A clear canvas behind the first `count` VMs, one after the other.
pub open spec fn vm_blends(layers: Layers, size: nat, count: nat) -> Seq<RGBA>
    decreases count,
{
    if count == 0 {
        Seq::new(size, |i: int| transparent())
    } else {
        (layers.vm)(count - 1, vm_blends(layers, size, (count - 1) as nat))
    }
}

/// The blends of the VMs with the map of the userspace LEDs plugin over them, if it is
/// active.
pub open spec fn uleds_blend(layers: Layers, size: nat, vms: nat, uleds: bool) -> Seq<RGBA> {
    if uleds {
        overlaid(vm_blends(layers, size, vms), layers.uleds, layers.uleds_brightness)
    } else {
        vm_blends(layers, size, vms)
    }
}

/// A whole frame: the map of the SDK plugin, if it is active, over that of the userspace LEDs
/// plugin, if it is active, over the blends of all VMs on a clear canvas.
pub open spec fn composed(
    layers: Layers,
    size: nat,
    vms: nat,
    uleds: bool,
    sdk: bool,
) -> Seq<RGBA> {
    let below = uleds_blend(layers, size, vms, uleds);
    if sdk {
        overlaid(below, layers.sdk, layers.sdk_brightness)
    } else {
        below
    }
}

/// The canvas once a request is carried out.
pub open spec fn effect(request: IoRequest, layers: Layers, canvas: Seq<RGBA>) -> Seq<RGBA> {
    match request {
        IoRequest::ClearCanvas => cleared(canvas),
        IoRequest::Await(index) => (layers.vm)(index as int, canvas),
        IoRequest::BlendUleds => overlaid(canvas, layers.uleds, layers.uleds_brightness),
        IoRequest::BlendSdk => overlaid(canvas, layers.sdk, layers.sdk_brightness),
        _ => canvas,
    }
}

/// The number of frames that were started.
pub open spec fn frames_started(thread: DeviceIoThread, replies: Seq<IoReply>) -> nat
    decreases replies.len(),
{
    if replies.len() == 0 {
        0
    } else {
        let front = replies.drop_last();
        let before = frames_started(thread, front);
        if thread.run(front).request == IoRequest::ReadGeneration && replies.last()->Generation_0
            > thread.run(front).saved_generation {
            before + 1
        } else {
            before
        }
    }
}

/// The canvas behind a sequence of replies. `layers` gives what goes into each of the frames,
/// counted as they are started.
pub open spec fn canvas_after(
    thread: DeviceIoThread,
    layers: spec_fn(nat) -> Layers,
    start: Seq<RGBA>,
    replies: Seq<IoReply>,
) -> Seq<RGBA>
    decreases replies.len(),
{
    if replies.len() == 0 {
        start
    } else {
        let front = replies.drop_last();
        effect(
            thread.run(front).request,
            layers(frames_started(thread, front)),
            canvas_after(thread, layers, start, front),
        )
    }
}

/// Was the userspace LEDs plugin active when it was last looked at?
pub open spec fn uleds_active(thread: DeviceIoThread, replies: Seq<IoReply>) -> bool
    decreases replies.len(),
{
    replies.len() > 0 && if thread.run(replies.drop_last()).request == IoRequest::ReadUleds {
        replies.last() == IoReply::Flag(true)
    } else {
        uleds_active(thread, replies.drop_last())
    }
}

/// Was the SDK plugin active when it was last looked at?
pub open spec fn sdk_active(thread: DeviceIoThread, replies: Seq<IoReply>) -> bool
    decreases replies.len(),
{
    replies.len() > 0 && if thread.run(replies.drop_last()).request == IoRequest::ReadSdk {
        replies.last() == IoReply::Flag(true)
    } else {
        sdk_active(thread, replies.drop_last())
    }
}

/// How far the canvas of a frame that is not dropped has come with each request.
spec fn on_track(
    thread: DeviceIoThread,
    layers: Layers,
    size: nat,
    canvas: Seq<RGBA>,
    uleds: bool,
    sdk: bool,
) -> bool {
    let vms = thread.vms as nat;
    &&& canvas.len() == size
    &&& !thread.drop_frame ==> match thread.request {
        IoRequest::CountVms => canvas == vm_blends(layers, size, 0),
        IoRequest::SetPending(_) => canvas == vm_blends(layers, size, 0),
        IoRequest::CheckFailed(index) => canvas == vm_blends(layers, size, index as nat),
        IoRequest::Realize(index) => canvas == vm_blends(layers, size, index as nat),
        IoRequest::MarkFailed(index) => canvas == vm_blends(layers, size, index as nat),
        IoRequest::Await(index) => canvas == vm_blends(layers, size, index as nat),
        IoRequest::ReadUleds => canvas == vm_blends(layers, size, vms),
        IoRequest::BlendUleds => uleds && canvas == vm_blends(layers, size, vms),
        IoRequest::ReadSdk => canvas == uleds_blend(layers, size, vms, uleds),
        IoRequest::BlendSdk => sdk && canvas == uleds_blend(layers, size, vms, uleds),
        _ => thread.delivering() ==> canvas == composed(layers, size, vms, uleds, sdk),
    }
}

/// A step that starts no frame keeps the canvas on track.
proof fn lemma_on_track(
    thread: DeviceIoThread,
    reply: IoReply,
    layers: Layers,
    size: nat,
    canvas: Seq<RGBA>,
    uleds: bool,
    sdk: bool,
)
    requires
        thread.wf(),
        thread.fits(reply),
        thread.request != IoRequest::ReadGeneration,
        layers.keep_size(),
        on_track(thread, layers, size, canvas, uleds, sdk),
    ensures
        on_track(
            thread.next(reply),
            layers,
            size,
            effect(thread.request, layers, canvas),
            if thread.request == IoRequest::ReadUleds {
                reply == IoReply::Flag(true)
            } else {
                uleds
            },
            if thread.request == IoRequest::ReadSdk {
                reply == IoReply::Flag(true)
            } else {
                sdk
            },
        ),
{
    match thread.request {
        IoRequest::ReadQuit => {},
        IoRequest::Receive => {},
        IoRequest::ClearCanvas => {
            assert(cleared(canvas) =~= vm_blends(layers, size, 0));
        },
        IoRequest::CountVms => {},
        IoRequest::SetPending(_) => {},
        IoRequest::CheckFailed(_) => {},
        IoRequest::Realize(_) => {},
        IoRequest::MarkFailed(_) => {},
        IoRequest::Await(_) => {},
        IoRequest::ReadUleds => {},
        IoRequest::BlendUleds => {},
        IoRequest::ReadSdk => {},
        IoRequest::BlendSdk => {},
        IoRequest::CountDevices(_) => {},
        IoRequest::Lock(_, _) => {},
        IoRequest::QueryInitialized(_, _) => {},
        IoRequest::SendMap(_, _) => {},
        IoRequest::QueryFailed(_, _) => {},
        IoRequest::RequestReenter(_, _) => {},
        IoRequest::Open(_, _) => {},
        IoRequest::Initialize(_, _) => {},
        IoRequest::SaveFrame => {},
        _ => {},
    }
}

/// The canvas is on track at all times.
proof fn lemma_canvas_on_track(
    layers: spec_fn(nat) -> Layers,
    start: Seq<RGBA>,
    replies: Seq<IoReply>,
)
    requires
        DeviceIoThread::initial().accepts(replies),
        forall|frame: nat| (#[trigger] layers(frame)).keep_size(),
    ensures
        ({
            let thread = DeviceIoThread::initial();
            on_track(
                thread.run(replies),
                layers(frames_started(thread, replies)),
                start.len(),
                canvas_after(thread, layers, start, replies),
                uleds_active(thread, replies),
                sdk_active(thread, replies),
            )
        }),
    decreases replies.len(),
{
    if replies.len() > 0 {
        let thread = DeviceIoThread::initial();
        let front = replies.drop_last();
        lemma_canvas_on_track(layers, start, front);
        law_runs_stay_well_formed(thread, front);
        let before = thread.run(front);
        if before.request != IoRequest::ReadGeneration {
            lemma_on_track(
                before,
                replies.last(),
                layers(frames_started(thread, front)),
                start.len(),
                canvas_after(thread, layers, start, front),
                uleds_active(thread, front),
                sdk_active(thread, front),
            );
        }
    }
}

/// While a frame is delivered, and so whenever the canvas is sent to a device and when it is
/// kept as the frame that was rendered last, the canvas is the whole frame: every VM has
/// blended once, in order, on a clear canvas, then the userspace LEDs plugin and then the SDK
/// plugin, as far as they are active. Nothing of an earlier frame is left.
pub proof fn law_delivered_canvas_is_composed(
    layers: spec_fn(nat) -> Layers,
    start: Seq<RGBA>,
    replies: Seq<IoReply>,
)
    requires
        DeviceIoThread::initial().accepts(replies),
        forall|frame: nat| (#[trigger] layers(frame)).keep_size(),
    ensures
        ({
            let initial = DeviceIoThread::initial();
            let thread = initial.run(replies);
            thread.delivering() ==> canvas_after(initial, layers, start, replies) == composed(
                layers(frames_started(initial, replies)),
                start.len(),
                thread.vms as nat,
                uleds_active(initial, replies),
                sdk_active(initial, replies),
            )
        }),
{
    lemma_canvas_on_track(layers, start, replies);
    law_runs_stay_well_formed(DeviceIoThread::initial(), replies);
}

/// Up to 100 percent a higher brightness makes no pixel of a whole frame darker.
pub proof fn law_frame_brightness_is_monotonic(
    layers: Layers,
    size: nat,
    vms: nat,
    uleds: bool,
    sdk: bool,
    low: int,
    high: int,
)
    requires
        low <= high <= 100,
    ensures
        nowhere_brighter(
            composed(layers.at_brightness(low, low), size, vms, uleds, sdk),
            composed(layers.at_brightness(high, high), size, vms, uleds, sdk),
        ),
{
    let dim = layers.at_brightness(low, low);
    let bright = layers.at_brightness(high, high);
    lemma_vm_blends_alike(dim, bright, size, vms);
    let base = vm_blends(dim, size, vms);
    law_overlay_is_monotonic(base, base, layers.uleds, low, high);
    law_overlay_is_monotonic(
        uleds_blend(dim, size, vms, uleds),
        uleds_blend(bright, size, vms, uleds),
        layers.sdk,
        low,
        high,
    );
}

/// The plugins do not matter to the VMs.
proof fn lemma_vm_blends_alike(one: Layers, other: Layers, size: nat, count: nat)
    requires
        one.vm == other.vm,
    ensures
        vm_blends(one, size, count) == vm_blends(other, size, count),
    decreases count,
{
    if count > 0 {
        lemma_vm_blends_alike(one, other, size, (count - 1) as nat);
    }
}

} // verus!

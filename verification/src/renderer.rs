//! What the client's renderer decides: which device it draws with, and what
//! its frame loop does with the events of the window and the answers of the
//! swapchain. The drawing itself is the caller's.

use vstd::prelude::*;

verus! {

/// The kind of a device that can draw.
#[derive(Clone, Copy, Debug, PartialEq, Eq, Structural)]
pub enum PhysicalDeviceType {
    DiscreteGpu,
    IntegratedGpu,
    VirtualGpu,
    Cpu,
    Other,
}

/// What a family of queues of a device can do.
#[derive(Clone, Copy, Debug, PartialEq, Eq, Structural)]
pub struct QueueFamilyInfo {
    /// Whether its queues take drawing commands.
    pub graphics: bool,
    /// Whether its queues can present to the surface of the window.
    pub surface_support: bool,
}

/// What is known of a device that can draw.
#[derive(Debug)]
pub struct PhysicalDeviceInfo {
    pub device_name: String,
    pub device_type: PhysicalDeviceType,
    /// Whether the device has the extensions that the renderer needs.
    pub supports_extensions: bool,
    pub queue_families: Vec<QueueFamilyInfo>,
}

/// The bytes of the name of the maker whose devices are preferred.
pub open spec fn preferred_maker() -> Seq<u8> {
    seq![0x4eu8, 0x56u8, 0x49u8, 0x44u8, 0x49u8, 0x41u8]
}

impl PhysicalDeviceInfo {
    /// Whether the name of the device starts with the name of the preferred maker.
    pub open spec fn is_preferred(&self) -> bool {
        preferred_maker().is_prefix_of(vstd::utf8::encode_utf8(self.device_name@))
    }

    /// How little the device is wanted: a device of the preferred maker
    /// before all others, then a discrete GPU, an integrated one, a virtual
    /// one, a CPU, and whatever else there is.
    pub open spec fn rank(&self) -> int {
        if self.is_preferred() {
            -1
        } else {
            match self.device_type {
                PhysicalDeviceType::DiscreteGpu => 0,
                PhysicalDeviceType::IntegratedGpu => 1,
                PhysicalDeviceType::VirtualGpu => 2,
                PhysicalDeviceType::Cpu => 3,
                PhysicalDeviceType::Other => 4,
            }
        }
    }

    /// Whether family `q` is the first whose queues can both draw and present.
    pub open spec fn is_first_queue(&self, q: int) -> bool {
        &&& 0 <= q < self.queue_families@.len()
        &&& self.queue_families@[q].graphics && self.queue_families@[q].surface_support
        &&& forall|k: int|
            0 <= k < q ==> !((#[trigger] self.queue_families@[k]).graphics
                && self.queue_families@[k].surface_support)
    }

    /// Whether the renderer can draw with the device: it has the extensions
    /// and a family of queues that can draw and present.
    pub open spec fn suitable(&self) -> bool {
        self.supports_extensions && exists|q: int| self.is_first_queue(q)
    }

    /// Whether the name of the device starts with the name of the preferred maker.
    fn preferred(&self) -> (preferred: bool)
        ensures
            preferred == self.is_preferred(),
    {
        let name = self.device_name.as_str().as_bytes();
        let maker: [u8; 6] = [0x4e, 0x56, 0x49, 0x44, 0x49, 0x41];
        if name.len() < 6 {
            return false;
        }
        let mut i: usize = 0;
        while i < 6
            invariant
                i <= 6,
                name@.len() >= 6,
                maker@ == preferred_maker(),
                name@ == vstd::utf8::encode_utf8(self.device_name@),
                forall|k: int| 0 <= k < i ==> name@[k] == preferred_maker()[k],
            decreases 6 - i,
        {
            if name[i] != maker[i] {
                assert(name@[i as int] != preferred_maker()[i as int]);
                return false;
            }
            i = i + 1;
        }
        assert(name@.subrange(0, 6) =~= preferred_maker());
        true
    }

    /// How little the device is wanted.
    fn rank_of(&self) -> (rank: i8)
        ensures
            rank == self.rank(),
    {
        if self.preferred() {
            return -1;
        }
        match self.device_type {
            PhysicalDeviceType::DiscreteGpu => 0,
            PhysicalDeviceType::IntegratedGpu => 1,
            PhysicalDeviceType::VirtualGpu => 2,
            PhysicalDeviceType::Cpu => 3,
            PhysicalDeviceType::Other => 4,
        }
    }

    /// The first family whose queues can both draw and present.
    fn first_queue(&self) -> (found: Option<usize>)
        ensures
            match found {
                Some(q) => self.is_first_queue(q as int),
                None => forall|q: int| !self.is_first_queue(q),
            },
    {
        let mut q: usize = 0;
        while q < self.queue_families.len()
            invariant
                q <= self.queue_families.len(),
                forall|k: int|
                    0 <= k < q ==> !((#[trigger] self.queue_families@[k]).graphics
                        && self.queue_families@[k].surface_support),
            decreases self.queue_families.len() - q,
        {
            if self.queue_families[q].graphics && self.queue_families[q].surface_support {
                return Some(q);
            }
            q = q + 1;
        }
        None
    }
}

/// Whether device `i` is the one to draw with: it is suitable, no suitable
/// device is wanted more, and it is the first of those that are wanted as much.
pub open spec fn is_chosen(devices: Seq<PhysicalDeviceInfo>, i: int) -> bool {
    &&& 0 <= i < devices.len()
    &&& devices[i].suitable()
    &&& forall|j: int|
        0 <= j < devices.len() && (#[trigger] devices[j]).suitable() ==> devices[i].rank()
            < devices[j].rank() || (devices[i].rank() == devices[j].rank() && i <= j)
}

/// The device to draw with, and the family of its queues to use; None where
/// no device is suitable.
pub fn select_physical_device(devices: &Vec<PhysicalDeviceInfo>) -> (chosen: Option<(usize, usize)>)
    ensures
        match chosen {
            Some((i, q)) => is_chosen(devices@, i as int) && devices@[i as int].is_first_queue(
                q as int,
            ),
            None => forall|j: int| 0 <= j < devices@.len() ==> !(#[trigger] devices@[j]).suitable(),
        },
{
    let mut best: Option<(usize, usize, i8)> = None;
    let mut i: usize = 0;
    while i < devices.len()
        invariant
            i <= devices.len(),
            match best {
                Some((b, q, rank)) => {
                    &&& b < i
                    &&& devices@[b as int].suitable()
                    &&& devices@[b as int].is_first_queue(q as int)
                    &&& rank == devices@[b as int].rank()
                    &&& forall|j: int|
                        0 <= j < i && (#[trigger] devices@[j]).suitable() ==> rank
                            < devices@[j].rank() || (rank == devices@[j].rank() && b <= j)
                },
                None => forall|j: int| 0 <= j < i ==> !(#[trigger] devices@[j]).suitable(),
            },
        decreases devices.len() - i,
    {
        if devices[i].supports_extensions {
            match devices[i].first_queue() {
                Some(q) => {
                    let rank = devices[i].rank_of();
                    let better = match best {
                        Some((_, _, best_rank)) => rank < best_rank,
                        None => true,
                    };
                    if better {
                        best = Some((i, q, rank));
                    }
                },
                None => {},
            }
        }
        i = i + 1;
    }
    match best {
        Some((b, q, _)) => Some((b, q)),
        None => None,
    }
}

/// What the window tells the frame loop.
#[derive(Clone, Copy, Debug, PartialEq, Eq, Structural)]
pub enum FrameEvent {
    /// The user asked for the window to be closed.
    CloseRequested,
    /// The window has another size.
    Resized,
    /// All events were handled: it is time to draw a frame.
    MainEventsCleared,
    /// Anything else.
    Other,
}

/// What the frame loop does on an event.
#[derive(Clone, Copy, Debug, PartialEq, Eq, Structural)]
pub enum FrameAction {
    /// It ends.
    Exit,
    /// It goes on to the next event.
    Continue,
    /// It draws a frame. Before that it makes the swapchain anew, and after
    /// that the pipelines, where this says so.
    Draw { recreate_swapchain: bool, handle_resize: bool },
}

/// What the swapchain answers when the loop asks for the next image.
#[derive(Clone, Copy, Debug, PartialEq, Eq, Structural)]
pub enum Acquired {
    /// The image to draw to, and whether the swapchain no longer fits the
    /// window well.
    Image { index: usize, suboptimal: bool },
    /// The swapchain no longer fits the window at all.
    OutOfDate,
}

/// How handing a frame over to be shown went.
#[derive(Clone, Copy, Debug, PartialEq, Eq, Structural)]
pub enum Presented {
    /// The frame is on its way, and a fence tells when it is done.
    Fenced,
    /// The swapchain no longer fits the window.
    OutOfDate,
    /// It failed otherwise.
    Failed,
}

/// Which fences a frame has to heed.
#[derive(Clone, Copy, Debug, PartialEq, Eq, Structural)]
pub struct FramePlan {
    /// The image to draw to. The frame waits for the fence of this image, if
    /// it has one.
    pub image: usize,
    /// The image of the frame before this one. The frame is run after the
    /// fence of that image, if it has one.
    pub previous: usize,
}

/// What the frame loop remembers from one event to the next.
#[derive(Clone, Copy, Debug, PartialEq, Eq, Structural)]
pub struct FrameLoop {
    /// Whether the window was resized since the last frame.
    pub resized: bool,
    /// Whether the swapchain has to be made anew before the next frame.
    pub recreate_swapchain: bool,
    /// The image of the last frame that was handed over.
    pub previous_fence_i: usize,
    /// The number of images of the swapchain.
    pub frames_in_flight: usize,
}

impl FrameLoop {
    /// The state of a loop that has drawn nothing yet.
    pub fn new(frames_in_flight: usize) -> (state: FrameLoop)
        ensures
            state == (FrameLoop {
                resized: false,
                recreate_swapchain: false,
                previous_fence_i: 0,
                frames_in_flight,
            }),
    {
        FrameLoop { resized: false, recreate_swapchain: false, previous_fence_i: 0, frames_in_flight }
    }

    /// What to do on an event of the window. A resize is remembered until the
    /// next frame, which makes the swapchain and the pipelines anew before
    /// it draws.
    pub fn on_event(&mut self, event: FrameEvent) -> (action: FrameAction)
        ensures
            final(self).previous_fence_i == old(self).previous_fence_i,
            final(self).frames_in_flight == old(self).frames_in_flight,
            match event {
                FrameEvent::CloseRequested => action == FrameAction::Exit && *final(self) == *old(
                    self,
                ),
                FrameEvent::Resized => action == FrameAction::Continue && final(self).resized
                    && final(self).recreate_swapchain == old(self).recreate_swapchain,
                FrameEvent::MainEventsCleared => {
                    &&& action == FrameAction::Draw {
                        recreate_swapchain: old(self).resized || old(self).recreate_swapchain,
                        handle_resize: old(self).resized,
                    }
                    &&& !final(self).resized
                    &&& !final(self).recreate_swapchain
                },
                FrameEvent::Other => action == FrameAction::Continue && *final(self) == *old(self),
            },
    {
        match event {
            FrameEvent::CloseRequested => FrameAction::Exit,
            FrameEvent::Resized => {
                self.resized = true;
                FrameAction::Continue
            },
            FrameEvent::MainEventsCleared => {
                let action = FrameAction::Draw {
                    recreate_swapchain: self.resized || self.recreate_swapchain,
                    handle_resize: self.resized,
                };
                self.resized = false;
                self.recreate_swapchain = false;
                action
            },
            FrameEvent::Other => FrameAction::Continue,
        }
    }

    /// What to do with the answer of the swapchain. Where the swapchain is
    /// out of date, the frame is skipped and the swapchain is made anew
    /// before the next one. Where it is no longer a good fit, the frame is
    /// drawn, and the swapchain is made anew before the next one.
    pub fn on_acquired(&mut self, acquired: Acquired) -> (plan: Option<FramePlan>)
        ensures
            final(self).resized == old(self).resized,
            final(self).previous_fence_i == old(self).previous_fence_i,
            final(self).frames_in_flight == old(self).frames_in_flight,
            match acquired {
                Acquired::OutOfDate => plan is None && final(self).recreate_swapchain,
                Acquired::Image { index, suboptimal } => {
                    &&& plan == Some(FramePlan { image: index, previous: old(self).previous_fence_i })
                    &&& final(self).recreate_swapchain == (old(self).recreate_swapchain
                        || suboptimal)
                },
            },
    {
        match acquired {
            Acquired::OutOfDate => {
                self.recreate_swapchain = true;
                None
            },
            Acquired::Image { index, suboptimal } => {
                if suboptimal {
                    self.recreate_swapchain = true;
                }
                Some(FramePlan { image: index, previous: self.previous_fence_i })
            },
        }
    }

    /// What to do once a frame was handed over. Returns whether the image
    /// has a fence now. The next frame is run after this one.
    pub fn on_presented(&mut self, image: usize, presented: Presented) -> (fenced: bool)
        ensures
            fenced == (presented == Presented::Fenced),
            final(self).resized == old(self).resized,
            final(self).frames_in_flight == old(self).frames_in_flight,
            final(self).previous_fence_i == image,
            final(self).recreate_swapchain == (old(self).recreate_swapchain || presented
                == Presented::OutOfDate),
    {
        self.previous_fence_i = image;
        match presented {
            Presented::Fenced => true,
            Presented::OutOfDate => {
                self.recreate_swapchain = true;
                false
            },
            Presented::Failed => false,
        }
    }
}

/// How the cursor is held.
#[derive(Clone, Copy, Debug, PartialEq, Eq, Structural)]
pub enum CursorPlan {
    /// The cursor is put into the middle of the window and kept in the window.
    CaptureAtCentre { x: u32, y: u32 },
    /// The cursor is shown and free.
    Release,
}

/// How the cursor is held: it is captured while the window has the focus
/// and the game wants the cursor.
pub fn cursor_plan(has_focus: bool, should_capture: bool, width: u32, height: u32) -> (plan:
    CursorPlan)
    ensures
        plan == (if has_focus && should_capture {
            CursorPlan::CaptureAtCentre { x: width / 2, y: height / 2 }
        } else {
            CursorPlan::Release
        }),
{
    if has_focus && should_capture {
        CursorPlan::CaptureAtCentre { x: width / 2, y: height / 2 }
    } else {
        CursorPlan::Release
    }
}

} // verus!

//! The job scheduler: the ordered list of frame jobs, built before any frame
//! is made.
//!
//! The order of the jobs is the order of the frames in the video. It is fixed
//! here, so it does not matter in which order the jobs are worked off later.

use crate::naming::{frame_name, lemma_frame_names_list_in_frame_order, lists_before};
use crate::reuse_queue::{reference_at, CircularImageQueue, QueueModel};
use vstd::prelude::*;

verus! {

/// How a frame is laid out.
#[derive(Clone, Copy, Debug, PartialEq, Eq, Structural)]
pub enum Layout {
    /// One image fills a landscape frame.
    Single,
    /// Up to three images are stacked in a portrait frame.
    StackedTriple,
}

/// The width and height of a landscape frame.
pub const SINGLE_WIDTH: u32 = 1280;

pub const SINGLE_HEIGHT: u32 = 720;

/// The width and height of a portrait frame.
pub const STACKED_WIDTH: u32 = 1080;

pub const STACKED_HEIGHT: u32 = 1920;

impl Layout {
    /// The number of images that a frame of this layout asks for.
    pub open spec fn spec_images_per_frame(self) -> usize {
        match self {
            Layout::Single => 1,
            Layout::StackedTriple => 3,
        }
    }

    /// The number of images that a frame of this layout asks for.
    #[verifier::when_used_as_spec(spec_images_per_frame)]
    pub fn images_per_frame(self) -> (count: usize)
        ensures
            count == self.spec_images_per_frame(),
    {
        match self {
            Layout::Single => 1,
            Layout::StackedTriple => 3,
        }
    }

    /// The width and height of a frame of this layout.
    pub open spec fn spec_resolution(self) -> (u32, u32) {
        match self {
            Layout::Single => (SINGLE_WIDTH, SINGLE_HEIGHT),
            Layout::StackedTriple => (STACKED_WIDTH, STACKED_HEIGHT),
        }
    }

    /// The width and height of a frame of this layout.
    #[verifier::when_used_as_spec(spec_resolution)]
    pub fn resolution(self) -> (size: (u32, u32))
        ensures
            size == self.spec_resolution(),
    {
        match self {
            Layout::Single => (SINGLE_WIDTH, SINGLE_HEIGHT),
            Layout::StackedTriple => (STACKED_WIDTH, STACKED_HEIGHT),
        }
    }
}

/// The work for one frame: which frame it is, which images go into it, and
/// how they are laid out.
#[derive(Clone, Debug)]
pub struct FrameJob {
    pub frame_index: usize,
    pub image_refs: Vec<usize>,
    pub layout: Layout,
}

impl FrameJob {
    /// The job asks for as many images as its layout takes, all of them from
    /// a pool of `pool_len` images.
    pub open spec fn wf(self, pool_len: nat) -> bool {
        &&& self.layout == Layout::Single ==> self.image_refs@.len() == 1
        &&& self.layout == Layout::StackedTriple ==> self.image_refs@.len() <= 3
        &&& forall|slot: int|
            0 <= slot < self.image_refs@.len() ==> #[trigger] self.image_refs@[slot] < pool_len
    }
}

/// The position, in all that the queue hands out, of the image in `slot` of
/// frame `frame`, when the schedule starts with the queue at `start`.
pub open spec fn slot_position(start: QueueModel, layout: Layout, frame: nat, slot: nat) -> nat {
    (start.emitted + frame * layout.images_per_frame() + slot) as nat
}

/// The references of frame `frame` in a schedule that starts with the queue
/// at `start`: the next few that the queue hands out after the frames before.
pub open spec fn frame_references(start: QueueModel, layout: Layout, frame: nat) -> Seq<usize> {
    Seq::new(
        layout.images_per_frame() as nat,
        |slot: int| reference_at(
            start.pool_len,
            start.seed,
            slot_position(start, layout, frame, slot as nat),
        ),
    )
}

/// `jobs` is the schedule of `frame_count` frames of `layout` drawn from a
/// queue at `start`: the jobs are numbered from zero without a gap, and each
/// holds the references that the queue hands out for it.
pub open spec fn is_schedule(
    jobs: Seq<FrameJob>,
    start: QueueModel,
    layout: Layout,
    frame_count: nat,
) -> bool {
    &&& jobs.len() == frame_count
    &&& forall|frame: int|
        0 <= frame < frame_count ==> {
            &&& (#[trigger] jobs[frame]).frame_index == frame
            &&& jobs[frame].layout == layout
            &&& jobs[frame].image_refs@ == frame_references(start, layout, frame as nat)
        }
}

/// No image comes twice within a pass: where two slots of the schedule are
/// filled from the same pass of the queue, they hold different images.
pub open spec fn no_repeat_within_pass(
    jobs: Seq<FrameJob>,
    start: QueueModel,
    layout: Layout,
    frame_count: nat,
) -> bool {
    forall|frame: int, slot: int, other_frame: int, other_slot: int|
        #![trigger jobs[frame].image_refs@[slot], jobs[other_frame].image_refs@[other_slot]]
        {
            let first = slot_position(start, layout, frame as nat, slot as nat);
            let second = slot_position(start, layout, other_frame as nat, other_slot as nat);
            &&& 0 <= frame < frame_count
            &&& 0 <= other_frame < frame_count
            &&& 0 <= slot < layout.images_per_frame()
            &&& 0 <= other_slot < layout.images_per_frame()
            &&& first < second
            &&& start.pass_of(first) == start.pass_of(second)
        } ==> jobs[frame].image_refs@[slot] != jobs[other_frame].image_refs@[other_slot]
}

/// With the same pool, the same seed and the same demand, two schedules
/// give every frame the same images.
pub proof fn lemma_schedule_is_reproducible(
    first: Seq<FrameJob>,
    second: Seq<FrameJob>,
    start: QueueModel,
    layout: Layout,
    frame_count: nat,
)
    requires
        is_schedule(first, start, layout, frame_count),
        is_schedule(second, start, layout, frame_count),
    ensures
        first.len() == second.len(),
        forall|frame: int|
            0 <= frame < frame_count ==> {
                &&& (#[trigger] first[frame]).frame_index == second[frame].frame_index
                &&& first[frame].layout == second[frame].layout
                &&& first[frame].image_refs@ == second[frame].image_refs@
            },
{
}

/// The frame with index `frame` has another name than the frame with index
/// `later`, and its name is listed first.
pub open spec fn named_in_order(frame: nat, later: nat) -> bool {
    &&& frame_name(frame) != frame_name(later)
    &&& lists_before(frame_name(frame), frame_name(later))
}

/// The frames of a schedule are stored under the names of the indices from
/// zero up to the number of frames, without a gap. Up to a million frames
/// each has a name of its own, and the names are listed in frame order.
pub proof fn lemma_schedule_names_frames_without_gap(
    jobs: Seq<FrameJob>,
    start: QueueModel,
    layout: Layout,
    frame_count: nat,
)
    requires
        is_schedule(jobs, start, layout, frame_count),
        frame_count <= 1_000_000,
    ensures
        forall|frame: int|
            0 <= frame < frame_count ==> frame_name((#[trigger] jobs[frame]).frame_index as nat)
                == frame_name(frame as nat),
        forall|frame: nat, later: nat|
            frame < later < frame_count ==> #[trigger] named_in_order(frame, later),
{
    assert forall|frame: nat, later: nat| frame < later < frame_count implies #[trigger]
        named_in_order(frame, later) by {
        lemma_frame_names_list_in_frame_order(frame, later);
    }
}

/// The slots of `frame_count` frames lie below `frame_count` times the
/// number of images per frame.
proof fn lemma_slot_below_demand(frame: nat, slot: nat, per_frame: nat, frame_count: nat)
    requires
        frame < frame_count,
        slot < per_frame,
    ensures
        frame * per_frame + slot < frame_count * per_frame,
{
    assert(frame * per_frame + per_frame <= frame_count * per_frame) by (nonlinear_arith)
        requires
            frame + 1 <= frame_count,
    ;
}

/// Builds the jobs of `frame_count` frames in frame order, drawing the
/// images of each frame from the queue in one request.
///
/// The queue hands out exactly `frame_count` times the number of images per
/// frame, and no two slots of one pass get the same image.
pub fn build_frame_jobs(
    queue: &mut CircularImageQueue,
    frame_count: usize,
    layout: Layout,
) -> (jobs: Vec<FrameJob>)
    requires
        old(queue).wf(),
    ensures
        final(queue).wf(),
        final(queue)@ == old(queue)@.advanced(
            (frame_count * layout.images_per_frame()) as nat,
        ),
        is_schedule(jobs@, old(queue)@, layout, frame_count as nat),
        forall|frame: int|
            0 <= frame < frame_count ==> (#[trigger] jobs@[frame]).wf(old(queue)@.pool_len),
        forall|frame: int|
            0 <= frame < frame_count ==> (#[trigger] jobs@[frame]).image_refs@.len()
                == layout.images_per_frame(),
        no_repeat_within_pass(jobs@, old(queue)@, layout, frame_count as nat),
{
    let ghost start = queue@;
    let per_frame = layout.images_per_frame();
    let mut jobs: Vec<FrameJob> = Vec::new();
    let mut frame_index: usize = 0;
    while frame_index < frame_count
        invariant
            queue.wf(),
            per_frame == layout.images_per_frame(),
            frame_index <= frame_count,
            queue@ == start.advanced((frame_index * per_frame) as nat),
            is_schedule(jobs@, start, layout, frame_index as nat),
            forall|frame: int|
                0 <= frame < frame_index ==> (#[trigger] jobs@[frame]).wf(start.pool_len),
        decreases frame_count - frame_index,
    {
        let ghost before = jobs@;
        let image_refs = queue.next_images(per_frame);
        proof {
            assert((frame_index + 1) * per_frame == frame_index * per_frame + per_frame)
                by (nonlinear_arith);
            assert(image_refs@ =~= frame_references(start, layout, frame_index as nat));
        }
        jobs.push(FrameJob { frame_index, image_refs, layout });
        frame_index += 1;
        proof {
            assert forall|frame: int| 0 <= frame < frame_index implies {
                &&& (#[trigger] jobs@[frame]).frame_index == frame
                &&& jobs@[frame].layout == layout
                &&& jobs@[frame].image_refs@ == frame_references(start, layout, frame as nat)
                &&& jobs@[frame].wf(start.pool_len)
            } by {
                if frame < frame_index - 1 {
                    assert(jobs@[frame] == before[frame]);
                }
            }
        }
    }
    proof {
        queue.lemma_no_repeat_within_pass();
        assert forall|frame: int, slot: int, other_frame: int, other_slot: int|
            #![trigger jobs@[frame].image_refs@[slot], jobs@[other_frame].image_refs@[other_slot]]
            {
                let first = slot_position(start, layout, frame as nat, slot as nat);
                let second = slot_position(start, layout, other_frame as nat, other_slot as nat);
                &&& 0 <= frame < frame_count
                &&& 0 <= other_frame < frame_count
                &&& 0 <= slot < layout.images_per_frame()
                &&& 0 <= other_slot < layout.images_per_frame()
                &&& first < second
                &&& start.pass_of(first) == start.pass_of(second)
            } implies jobs@[frame].image_refs@[slot]
            != jobs@[other_frame].image_refs@[other_slot] by {
            let first = slot_position(start, layout, frame as nat, slot as nat);
            let second = slot_position(start, layout, other_frame as nat, other_slot as nat);
            lemma_slot_below_demand(
                frame as nat,
                slot as nat,
                per_frame as nat,
                frame_count as nat,
            );
            lemma_slot_below_demand(
                other_frame as nat,
                other_slot as nat,
                per_frame as nat,
                frame_count as nat,
            );
            assert(jobs@[frame].image_refs@ == frame_references(start, layout, frame as nat));
            assert(jobs@[other_frame].image_refs@ == frame_references(
                start,
                layout,
                other_frame as nat,
            ));
            assert(jobs@[frame].image_refs@[slot] == reference_at(
                start.pool_len,
                start.seed,
                first,
            ));
            assert(jobs@[other_frame].image_refs@[other_slot] == reference_at(
                start.pool_len,
                start.seed,
                second,
            ));
            assert(queue@.pass_of(first) == queue@.pass_of(second));
            assert(first < second < queue@.emitted);
        }
    }
    jobs
}

} // verus!

//! Graph construction: from declarative passes to an executable plan.
//!
//! The [`GraphBuilder`] collects attachment registrations, pass
//! declarations, the presentation attachment, the backbuffer and the target
//! extent, and [`GraphBuilder::build`] turns them into a [`Graph`]: passes
//! in dependency order, backing images and views for every attachment, the
//! clear decision for every writer, and a semaphore for every pass exactly
//! one later pass waits on.
//!
//! Device work — allocating images, creating views and semaphores — is the
//! caller's: the builder drives it through the [`RenderDevice`] interface
//! and aborts the whole build on the first failure.

use vstd::prelude::*;
use crate::attachment::{Attachment, ColorAttachment, DepthStencilAttachment, Extent, Format};
use crate::pass::{
    AttachmentImageViews, ColorAttachmentDesc, DepthStencilAttachmentDesc, InputAttachmentDesc,
    PassBuilder, PassNode, PipelineStage, ViewRange,
};
use crate::schedule::{
    cycle_exists, deps_ok, reorder_passes, topo_sorted,
};

verus! {

/// Why a build failed.
#[derive(Debug)]
pub enum GraphBuildError<E> {
    /// No presentation attachment was set before building.
    MissingPresentAttachment,
    /// No backbuffer was set before building.
    MissingBackbuffer,
    /// The device failed to create an image view; carries the device error.
    ImageViewCreationFailed(E),
    /// The device failed to allocate a target image; carries the device
    /// error.
    TargetAllocationFailed(E),
    /// The pass declarations contain a dependency cycle.
    CircularDependency,
}

/// What the presentation machinery supplies: either one presentable image
/// per frame in flight, or a single framebuffer of its own.
#[derive(Debug)]
pub enum Backbuffer<Img, Fb> {
    /// Discrete per-frame images; the graph creates a view over each.
    Images(Vec<Img>),
    /// A single externally owned framebuffer.
    Framebuffer(Fb),
}

/// The shape of a newly allocated target image: a single-sampled 2-D image
/// with the given dimensions.
#[derive(Clone, Copy, Debug, PartialEq, Eq, Structural)]
pub struct ImageKind {
    pub width: u32,
    pub height: u32,
}

/// How an allocated target image will be used.
#[derive(Clone, Copy, Debug, PartialEq, Eq, Structural)]
pub enum ImageUsage {
    ColorAttachment,
}

/// Where an allocated target image must live.
#[derive(Clone, Copy, Debug, PartialEq, Eq, Structural)]
pub enum MemoryProperties {
    DeviceLocal,
}

/// The device-side services graph construction needs.  The caller
/// implements this for its device and image allocator; every call is
/// allowed to fail (except semaphore creation), and any failure aborts the
/// build.
pub trait RenderDevice<Img, V, S, E> {
    /// Allocate one backing image of the given kind and format.
    fn allocate_image(
        &mut self,
        kind: ImageKind,
        mip_levels: u8,
        format: Format,
        usage: ImageUsage,
        properties: MemoryProperties,
    ) -> Result<Img, E>;

    /// Create a view over an image.
    fn create_image_view(&mut self, image: &Img, format: Format) -> Result<V, E>;

    /// Create a semaphore for inter-pass synchronization.
    fn create_semaphore(&mut self) -> S;
}

/// The resolved backing storage for one attachment: the run of views that
/// back it (one per frame), and how many writers have been resolved onto
/// it so far — the first writer clears, later ones must not.
#[derive(Clone, Copy, Debug)]
pub struct Target {
    pub range: ViewRange,
    pub written: usize,
}

/// The built graph: passes in execution order, a semaphore for each pass
/// that exactly one later pass waits on, the owned image and view pools,
/// the frame count, and the index of the first pass that writes the
/// presentation attachment.
#[derive(Debug)]
pub struct Graph<Img, V, S> {
    pub passes: Vec<PassNode>,
    pub signals: Vec<Option<S>>,
    pub images: Vec<Img>,
    pub views: Vec<V>,
    pub frames: usize,
    pub first_draws_to_surface: usize,
}

/// Some pass of `ps` writes color attachment `id`.
pub open spec fn spec_used_color(ps: Seq<PassBuilder>, id: usize) -> bool {
    exists|k: int| 0 <= k < ps.len() && (#[trigger] ps[k]).colors@.contains(id)
}

/// Some pass of `ps` writes depth/stencil attachment `id`.
pub open spec fn spec_used_ds(ps: Seq<PassBuilder>, id: usize) -> bool {
    exists|k: int| 0 <= k < ps.len() && (#[trigger] ps[k]).depth_stencil == Some(id)
}

/// Does any pass of `passes` write color attachment `id`?
pub fn used_color(passes: &Vec<PassBuilder>, id: usize) -> (b: bool)
    ensures
        b == spec_used_color(passes@, id),
{
    let mut k: usize = 0;
    while k < passes.len()
        invariant
            k <= passes@.len(),
            forall|j: int| 0 <= j < k ==> !(#[trigger] passes@[j]).colors@.contains(id),
        decreases passes@.len() - k,
    {
        if crate::schedule::writes_color(&passes[k], id) {
            return true;
        }
        k = k + 1;
    }
    false
}

/// Does any pass of `passes` write depth/stencil attachment `id`?
pub fn used_ds(passes: &Vec<PassBuilder>, id: usize) -> (b: bool)
    ensures
        b == spec_used_ds(passes@, id),
{
    let mut k: usize = 0;
    while k < passes.len()
        invariant
            k <= passes@.len(),
            forall|j: int| 0 <= j < k ==> (#[trigger] passes@[j]).depth_stencil != Some(id),
        decreases passes@.len() - k,
    {
        let found = match passes[k].depth_stencil {
            Some(d) => d == id,
            None => false,
        };
        if found {
            return true;
        }
        k = k + 1;
    }
    false
}

/// Allocate the backing storage for one target: `frames` images of the
/// given format sized to `extent`, with one view over each, appended to
/// the shared pools.  Returns the run of view indices that now backs the
/// target.
pub fn create_target<Img, V, S, E, D: RenderDevice<Img, V, S, E>>(
    format: Format,
    device: &mut D,
    images: &mut Vec<Img>,
    views: &mut Vec<V>,
    extent: Extent,
    frames: usize,
) -> (r: Result<ViewRange, GraphBuildError<E>>)
    requires
        old(views)@.len() + frames <= usize::MAX,
    ensures
        match r {
            Ok(range) => {
                &&& range.start == old(views)@.len()
                &&& range.end == final(views)@.len()
                &&& final(views)@.len() == old(views)@.len() + frames
                &&& final(images)@.len() == old(images)@.len() + frames
                &&& forall|i: int|
                    0 <= i < old(views)@.len() ==> final(views)@[i] == old(views)@[i]
                &&& forall|i: int|
                    0 <= i < old(images)@.len() ==> final(images)@[i] == old(images)@[i]
            },
            Err(e) => e matches GraphBuildError::TargetAllocationFailed(_) || e
                matches GraphBuildError::ImageViewCreationFailed(_),
        },
{
    let kind = ImageKind { width: extent.width, height: extent.height };
    let start = views.len();
    let mut f: usize = 0;
    while f < frames
        invariant
            f <= frames,
            start == old(views)@.len(),
            views@.len() == start + f,
            images@.len() == old(images)@.len() + f,
            start + frames <= usize::MAX,
            forall|i: int| 0 <= i < old(views)@.len() ==> views@[i] == old(views)@[i],
            forall|i: int| 0 <= i < old(images)@.len() ==> images@[i] == old(images)@[i],
        decreases frames - f,
    {
        let image = match device.allocate_image(
            kind,
            1,
            format,
            ImageUsage::ColorAttachment,
            MemoryProperties::DeviceLocal,
        ) {
            Ok(image) => image,
            Err(e) => {
                return Err(GraphBuildError::TargetAllocationFailed(e));
            },
        };
        let view = match device.create_image_view(&image, format) {
            Ok(view) => view,
            Err(e) => {
                return Err(GraphBuildError::ImageViewCreationFailed(e));
            },
        };
        views.push(view);
        images.push(image);
        f = f + 1;
    }
    Ok(ViewRange { start, end: views.len() })
}

/// Number of slots among the first `upto` color slots of `colors` that
/// name attachment `id`.
pub open spec fn count_in_slots(colors: Seq<usize>, upto: int, id: usize) -> nat
    decreases upto,
{
    if upto <= 0 {
        0
    } else {
        count_in_slots(colors, upto - 1, id) + (if colors[upto - 1] == id {
            1nat
        } else {
            0nat
        })
    }
}

/// Number of color slots of pass `p` that write attachment `id`.
pub open spec fn pass_color_writes(p: PassBuilder, id: usize) -> nat {
    count_in_slots(p.colors@, p.colors@.len() as int, id)
}

/// Number of color writes to attachment `id` among the first `k` passes of
/// the scheduled order.
pub open spec fn sched_color_writes(sched: Seq<PassBuilder>, k: int, id: usize) -> nat
    decreases k,
{
    if k <= 0 {
        0
    } else {
        sched_color_writes(sched, k - 1, id) + pass_color_writes(sched[k - 1], id)
    }
}

/// Whether pass `p` writes depth/stencil attachment `id` (at most once).
pub open spec fn pass_ds_writes(p: PassBuilder, id: usize) -> nat {
    if p.depth_stencil == Some(id) {
        1nat
    } else {
        0nat
    }
}

/// Number of depth/stencil writes to attachment `id` among the first `k`
/// passes of the scheduled order.
pub open spec fn sched_ds_writes(sched: Seq<PassBuilder>, k: int, id: usize) -> nat
    decreases k,
{
    if k <= 0 {
        0
    } else {
        sched_ds_writes(sched, k - 1, id) + pass_ds_writes(sched[k - 1], id)
    }
}

/// Total number of color slots declared by the first `k` passes.
pub open spec fn total_color_slots(sched: Seq<PassBuilder>, k: int) -> nat
    decreases k,
{
    if k <= 0 {
        0
    } else {
        total_color_slots(sched, k - 1) + sched[k - 1].colors@.len()
    }
}

proof fn lemma_count_in_slots_le(colors: Seq<usize>, upto: int, id: usize)
    requires
        0 <= upto,
    ensures
        count_in_slots(colors, upto, id) <= upto,
    decreases upto,
{
    if upto > 0 {
        lemma_count_in_slots_le(colors, upto - 1, id);
    }
}

proof fn lemma_sched_color_writes_le(sched: Seq<PassBuilder>, k: int, id: usize)
    requires
        0 <= k,
    ensures
        sched_color_writes(sched, k, id) <= total_color_slots(sched, k),
    decreases k,
{
    if k > 0 {
        lemma_sched_color_writes_le(sched, k - 1, id);
        lemma_count_in_slots_le(sched[k - 1].colors@, sched[k - 1].colors@.len() as int, id);
    }
}

proof fn lemma_total_color_slots_mono(sched: Seq<PassBuilder>, k1: int, k2: int)
    requires
        0 <= k1 <= k2,
    ensures
        total_color_slots(sched, k1) <= total_color_slots(sched, k2),
    decreases k2 - k1,
{
    if k1 < k2 {
        lemma_total_color_slots_mono(sched, k1, k2 - 1);
    }
}

proof fn lemma_sched_ds_writes_le(sched: Seq<PassBuilder>, k: int, id: usize)
    requires
        0 <= k,
    ensures
        sched_ds_writes(sched, k, id) <= k,
    decreases k,
{
    if k > 0 {
        lemma_sched_ds_writes_le(sched, k - 1, id);
    }
}

/// Produce a target for every registered color attachment that needs one:
/// the presentation attachment reuses the backbuffer views (the run
/// `0..bb_view_count`, empty when the backbuffer owns its framebuffer),
/// and every other attachment written by some pass gets `frames` newly
/// allocated image/view pairs.  Unused attachments get no target.
#[verifier::rlimit(30)]
pub fn allocate_color_targets<Img, V, S, E, D: RenderDevice<Img, V, S, E>>(
    colors: &Vec<ColorAttachment>,
    passes: &Vec<PassBuilder>,
    present: usize,
    bb_view_count: usize,
    device: &mut D,
    images: &mut Vec<Img>,
    views: &mut Vec<V>,
    extent: Extent,
    frames: usize,
) -> (r: Result<Vec<Option<Target>>, GraphBuildError<E>>)
    requires
        present < colors@.len(),
        bb_view_count <= old(views)@.len(),
        old(views)@.len() + frames * colors@.len() <= usize::MAX,
    ensures
        match r {
            Ok(t) => {
                &&& t@.len() == colors@.len()
                &&& forall|id: int|
                    0 <= id < colors@.len() ==> (((#[trigger] t@[id]) is Some) <==> (id == present
                        || spec_used_color(passes@, id as usize)))
                &&& forall|id: int|
                    0 <= id < colors@.len() && t@[id] is Some
                        ==> (#[trigger] t@[id]).unwrap().written == 0
                &&& t@[present as int].unwrap().range == (ViewRange { start: 0, end: bb_view_count })
                &&& forall|id: int|
                    0 <= id < colors@.len() && id != present && t@[id] is Some ==> {
                        &&& (#[trigger] t@[id]).unwrap().range.end - t@[id].unwrap().range.start
                            == frames
                        &&& t@[id].unwrap().range.end <= final(views)@.len()
                        &&& t@[id].unwrap().range.start >= bb_view_count
                    }
                &&& final(views)@.len() >= old(views)@.len()
                &&& final(views)@.len() <= old(views)@.len() + frames * colors@.len()
                &&& final(images)@.len() >= old(images)@.len()
                &&& forall|i: int|
                    0 <= i < old(views)@.len() ==> final(views)@[i] == old(views)@[i]
                &&& forall|i: int|
                    0 <= i < old(images)@.len() ==> final(images)@[i] == old(images)@[i]
            },
            Err(e) => e matches GraphBuildError::TargetAllocationFailed(_) || e
                matches GraphBuildError::ImageViewCreationFailed(_),
        },
{
    let mut targets: Vec<Option<Target>> = Vec::new();
    let mut id: usize = 0;
    while id < colors.len()
        invariant
            id <= colors@.len(),
            present < colors@.len(),
            bb_view_count <= views@.len(),
            targets@.len() == id,
            views@.len() + frames * (colors@.len() - id) <= usize::MAX,
            views@.len() <= old(views)@.len() + frames * id,
            views@.len() >= old(views)@.len(),
            images@.len() >= old(images)@.len(),
            forall|i: int| 0 <= i < old(views)@.len() ==> views@[i] == old(views)@[i],
            forall|i: int| 0 <= i < old(images)@.len() ==> images@[i] == old(images)@[i],
            forall|j: int|
                0 <= j < id ==> (((#[trigger] targets@[j]) is Some) <==> (j == present
                    || spec_used_color(passes@, j as usize))),
            forall|j: int|
                0 <= j < id && targets@[j] is Some ==> (#[trigger] targets@[j]).unwrap().written
                    == 0,
            id > present ==> targets@[present as int].unwrap().range == (ViewRange {
                start: 0,
                end: bb_view_count,
            }),
            forall|j: int|
                0 <= j < id && j != present && targets@[j] is Some ==> {
                    &&& (#[trigger] targets@[j]).unwrap().range.end
                        - targets@[j].unwrap().range.start == frames
                    &&& targets@[j].unwrap().range.end <= views@.len()
                    &&& targets@[j].unwrap().range.start >= bb_view_count
                },
        decreases colors@.len() - id,
    {
        proof {
            assert(frames * (colors@.len() - id) == frames + frames * (colors@.len() - id - 1))
                by (nonlinear_arith);
            assert(frames * (colors@.len() - id) >= frames) by (nonlinear_arith)
                requires
                    id < colors@.len(),
                    frames >= 0,
            ;
            assert(frames * (id + 1) == frames * id + frames) by (nonlinear_arith);
            assert(frames * id <= frames * colors@.len()) by (nonlinear_arith)
                requires
                    0 <= id <= colors@.len(),
                    frames >= 0,
            ;
            assert(frames * (id + 1) <= frames * colors@.len()) by (nonlinear_arith)
                requires
                    0 <= id + 1 <= colors@.len(),
                    frames >= 0,
            ;
        }
        if id == present {
            targets.push(
                Some(Target { range: ViewRange { start: 0, end: bb_view_count }, written: 0 }),
            );
        } else if used_color(passes, id) {
            let format = colors[id].format;
            let range = match create_target(format, device, images, views, extent, frames) {
                Ok(range) => range,
                Err(e) => {
                    return Err(e);
                },
            };
            targets.push(Some(Target { range, written: 0 }));
        } else {
            targets.push(None);
        }
        id = id + 1;
    }
    Ok(targets)
}

/// Produce a target for every registered depth/stencil attachment written
/// by some pass: `frames` newly allocated image/view pairs each.
#[verifier::rlimit(30)]
pub fn allocate_ds_targets<Img, V, S, E, D: RenderDevice<Img, V, S, E>>(
    depth_stencils: &Vec<DepthStencilAttachment>,
    passes: &Vec<PassBuilder>,
    device: &mut D,
    images: &mut Vec<Img>,
    views: &mut Vec<V>,
    extent: Extent,
    frames: usize,
) -> (r: Result<Vec<Option<Target>>, GraphBuildError<E>>)
    requires
        old(views)@.len() + frames * depth_stencils@.len() <= usize::MAX,
    ensures
        match r {
            Ok(t) => {
                &&& t@.len() == depth_stencils@.len()
                &&& forall|id: int|
                    0 <= id < depth_stencils@.len() ==> (((#[trigger] t@[id]) is Some)
                        <==> spec_used_ds(passes@, id as usize))
                &&& forall|id: int|
                    0 <= id < depth_stencils@.len() && t@[id] is Some
                        ==> (#[trigger] t@[id]).unwrap().written == 0
                &&& forall|id: int|
                    0 <= id < depth_stencils@.len() && t@[id] is Some ==> {
                        &&& (#[trigger] t@[id]).unwrap().range.end - t@[id].unwrap().range.start
                            == frames
                        &&& t@[id].unwrap().range.end <= final(views)@.len()
                    }
                &&& final(views)@.len() >= old(views)@.len()
                &&& final(images)@.len() >= old(images)@.len()
                &&& forall|i: int|
                    0 <= i < old(views)@.len() ==> final(views)@[i] == old(views)@[i]
                &&& forall|i: int|
                    0 <= i < old(images)@.len() ==> final(images)@[i] == old(images)@[i]
            },
            Err(e) => e matches GraphBuildError::TargetAllocationFailed(_) || e
                matches GraphBuildError::ImageViewCreationFailed(_),
        },
{
    let mut targets: Vec<Option<Target>> = Vec::new();
    let mut id: usize = 0;
    while id < depth_stencils.len()
        invariant
            id <= depth_stencils@.len(),
            targets@.len() == id,
            views@.len() + frames * (depth_stencils@.len() - id) <= usize::MAX,
            views@.len() >= old(views)@.len(),
            images@.len() >= old(images)@.len(),
            forall|i: int| 0 <= i < old(views)@.len() ==> views@[i] == old(views)@[i],
            forall|i: int| 0 <= i < old(images)@.len() ==> images@[i] == old(images)@[i],
            forall|j: int|
                0 <= j < id ==> (((#[trigger] targets@[j]) is Some) <==> spec_used_ds(
                    passes@,
                    j as usize,
                )),
            forall|j: int|
                0 <= j < id && targets@[j] is Some ==> (#[trigger] targets@[j]).unwrap().written
                    == 0,
            forall|j: int|
                0 <= j < id && targets@[j] is Some ==> {
                    &&& (#[trigger] targets@[j]).unwrap().range.end
                        - targets@[j].unwrap().range.start == frames
                    &&& targets@[j].unwrap().range.end <= views@.len()
                },
        decreases depth_stencils@.len() - id,
    {
        proof {
            assert(frames * (depth_stencils@.len() - id) == frames + frames * (depth_stencils@.len()
                - id - 1)) by (nonlinear_arith);
            assert(frames * (depth_stencils@.len() - id) >= frames) by (nonlinear_arith)
                requires
                    id < depth_stencils@.len(),
                    frames >= 0,
            ;
        }
        if used_ds(passes, id) {
            let format = depth_stencils[id].format;
            let range = match create_target(format, device, images, views, extent, frames) {
                Ok(range) => range,
                Err(e) => {
                    return Err(e);
                },
            };
            targets.push(Some(Target { range, written: 0 }));
        } else {
            targets.push(None);
        }
        id = id + 1;
    }
    Ok(targets)
}

proof fn lemma_count_in_slots_mono(colors: Seq<usize>, a: int, b: int, id: usize)
    requires
        0 <= a <= b,
    ensures
        count_in_slots(colors, a, id) <= count_in_slots(colors, b, id),
    decreases b - a,
{
    if a < b {
        lemma_count_in_slots_mono(colors, a, b - 1, id);
    }
}

/// The attachment reference is resolvable: its token is registered and its
/// target exists.
pub open spec fn attachment_ready(
    a: Attachment,
    ct: Seq<Option<Target>>,
    dt: Seq<Option<Target>>,
) -> bool {
    match a {
        Attachment::Color(id) => id < ct.len() && ct[id as int] is Some,
        Attachment::DepthStencil(id) => id < dt.len() && dt[id as int] is Some,
    }
}

/// How a view range appears on a resolved descriptor: the empty range
/// stands for the externally owned presentation framebuffer.
pub open spec fn view_of(range: ViewRange) -> AttachmentImageViews {
    if range.spec_is_external() {
        AttachmentImageViews::External
    } else {
        AttachmentImageViews::Owned(range)
    }
}

/// The resolved descriptor of one input attachment.
pub open spec fn input_desc_spec(
    a: Attachment,
    colors_reg: Seq<ColorAttachment>,
    ds_reg: Seq<DepthStencilAttachment>,
    ct: Seq<Option<Target>>,
    dt: Seq<Option<Target>>,
) -> InputAttachmentDesc {
    match a {
        Attachment::Color(id) => InputAttachmentDesc {
            format: colors_reg[id as int].format,
            view: ct[id as int].unwrap().range,
        },
        Attachment::DepthStencil(id) => InputAttachmentDesc {
            format: ds_reg[id as int].format,
            view: dt[id as int].unwrap().range,
        },
    }
}

/// Resolve the input descriptors of one pass.
pub fn resolve_pass_inputs(
    p: &PassBuilder,
    colors_reg: &Vec<ColorAttachment>,
    ds_reg: &Vec<DepthStencilAttachment>,
    color_targets: &Vec<Option<Target>>,
    ds_targets: &Vec<Option<Target>>,
) -> (descs: Vec<InputAttachmentDesc>)
    requires
        color_targets@.len() == colors_reg@.len(),
        ds_targets@.len() == ds_reg@.len(),
        forall|c: int|
            0 <= c < p.inputs@.len() ==> attachment_ready(
                #[trigger] p.inputs@[c],
                color_targets@,
                ds_targets@,
            ),
    ensures
        descs@.len() == p.inputs@.len(),
        forall|c: int|
            0 <= c < p.inputs@.len() ==> #[trigger] descs@[c] == input_desc_spec(
                p.inputs@[c],
                colors_reg@,
                ds_reg@,
                color_targets@,
                ds_targets@,
            ),
{
    let mut descs: Vec<InputAttachmentDesc> = Vec::new();
    let mut c: usize = 0;
    while c < p.inputs.len()
        invariant
            c <= p.inputs@.len(),
            descs@.len() == c,
            color_targets@.len() == colors_reg@.len(),
            ds_targets@.len() == ds_reg@.len(),
            forall|j: int|
                0 <= j < p.inputs@.len() ==> attachment_ready(
                    #[trigger] p.inputs@[j],
                    color_targets@,
                    ds_targets@,
                ),
            forall|j: int|
                0 <= j < c ==> #[trigger] descs@[j] == input_desc_spec(
                    p.inputs@[j],
                    colors_reg@,
                    ds_reg@,
                    color_targets@,
                    ds_targets@,
                ),
        decreases p.inputs@.len() - c,
    {
        let desc = match p.inputs[c] {
            Attachment::Color(id) => {
                let t = match color_targets[id] {
                    Some(t) => t,
                    None => vstd::pervasive::unreached(),
                };
                InputAttachmentDesc { format: colors_reg[id].format, view: t.range }
            },
            Attachment::DepthStencil(id) => {
                let t = match ds_targets[id] {
                    Some(t) => t,
                    None => vstd::pervasive::unreached(),
                };
                InputAttachmentDesc { format: ds_reg[id].format, view: t.range }
            },
        };
        descs.push(desc);
        c = c + 1;
    }
    descs
}

/// Resolve the color descriptors of one pass, advancing each written
/// target's writer count: a slot clears its attachment exactly when no
/// earlier writer — in an earlier pass or an earlier slot of this one —
/// has touched the target.
pub fn resolve_pass_colors(
    p: &PassBuilder,
    colors_reg: &Vec<ColorAttachment>,
    color_targets: &mut Vec<Option<Target>>,
) -> (descs: Vec<ColorAttachmentDesc>)
    requires
        old(color_targets)@.len() == colors_reg@.len(),
        forall|c: int|
            0 <= c < p.colors@.len() ==> (#[trigger] p.colors@[c]) < colors_reg@.len()
                && old(color_targets)@[p.colors@[c] as int] is Some,
        forall|id: usize|
            id < colors_reg@.len() && old(color_targets)@[id as int] is Some ==> (#[trigger] old(
                color_targets,
            )@[id as int]).unwrap().written + pass_color_writes(*p, id) <= usize::MAX,
    ensures
        descs@.len() == p.colors@.len(),
        forall|c: int|
            0 <= c < p.colors@.len() ==> {
                &&& (#[trigger] descs@[c]).format == colors_reg@[p.colors@[c] as int].format
                &&& descs@[c].view == view_of(
                    old(color_targets)@[p.colors@[c] as int].unwrap().range,
                )
                &&& descs@[c].clear == (if old(color_targets)@[p.colors@[c] as int].unwrap().written
                    + count_in_slots(p.colors@, c, p.colors@[c]) == 0 {
                    colors_reg@[p.colors@[c] as int].clear
                } else {
                    None
                })
            },
        final(color_targets)@.len() == old(color_targets)@.len(),
        forall|id: usize|
            (id as int) < old(color_targets)@.len() ==> #[trigger] final(color_targets)@[id as int]
                == (match old(color_targets)@[id as int] {
                Some(t) => Some(
                    Target {
                        range: t.range,
                        written: (t.written + pass_color_writes(*p, id)) as usize,
                    },
                ),
                None => None,
            }),
{
    let ghost ct0 = color_targets@;
    let mut descs: Vec<ColorAttachmentDesc> = Vec::new();
    let mut c: usize = 0;
    while c < p.colors.len()
        invariant
            c <= p.colors@.len(),
            descs@.len() == c,
            color_targets@.len() == ct0.len(),
            ct0.len() == colors_reg@.len(),
            forall|j: int|
                0 <= j < p.colors@.len() ==> (#[trigger] p.colors@[j]) < colors_reg@.len()
                    && ct0[p.colors@[j] as int] is Some,
            forall|id: usize|
                id < colors_reg@.len() && ct0[id as int] is Some ==> (#[trigger] ct0[id as int]).unwrap().written
                    + pass_color_writes(*p, id) <= usize::MAX,
            forall|id: usize|
                (id as int) < ct0.len() ==> #[trigger] color_targets@[id as int] == (match ct0[id as int] {
                    Some(t) => Some(
                        Target {
                            range: t.range,
                            written: (t.written + count_in_slots(p.colors@, c as int, id)) as usize,
                        },
                    ),
                    None => None,
                }),
            forall|j: int|
                0 <= j < c ==> {
                    &&& (#[trigger] descs@[j]).format == colors_reg@[p.colors@[j] as int].format
                    &&& descs@[j].view == view_of(ct0[p.colors@[j] as int].unwrap().range)
                    &&& descs@[j].clear == (if ct0[p.colors@[j] as int].unwrap().written
                        + count_in_slots(p.colors@, j, p.colors@[j]) == 0 {
                        colors_reg@[p.colors@[j] as int].clear
                    } else {
                        None
                    })
                },
        decreases p.colors@.len() - c,
    {
        let id = p.colors[c];
        let t = match color_targets[id] {
            Some(t) => t,
            None => vstd::pervasive::unreached(),
        };
        proof {
            lemma_count_in_slots_mono(p.colors@, c as int, p.colors@.len() as int, id);
            lemma_count_in_slots_mono(p.colors@, c + 1, p.colors@.len() as int, id);
        }
        let clear = if t.written == 0 {
            colors_reg[id].clear
        } else {
            None
        };
        let view = if t.range.start == 0 && t.range.end == 0 {
            AttachmentImageViews::External
        } else {
            AttachmentImageViews::Owned(t.range)
        };
        descs.push(ColorAttachmentDesc { format: colors_reg[id].format, view, clear });
        color_targets[id] = Some(Target { range: t.range, written: t.written + 1 });
        proof {
            assert forall|idx: usize| (idx as int) < ct0.len() implies #[trigger] color_targets@[idx as int]
                == (match ct0[idx as int] {
                Some(t0) => Some(
                    Target {
                        range: t0.range,
                        written: (t0.written + count_in_slots(p.colors@, c + 1, idx)) as usize,
                    },
                ),
                None => None,
            }) by {
                if idx == id {
                    assert(count_in_slots(p.colors@, c + 1, id) == count_in_slots(
                        p.colors@,
                        c as int,
                        id,
                    ) + 1);
                } else {
                    assert(count_in_slots(p.colors@, c + 1, idx) == count_in_slots(
                        p.colors@,
                        c as int,
                        idx,
                    ));
                }
            }
        }
        c = c + 1;
    }
    descs
}

/// Resolve the depth/stencil descriptor of one pass, if it declares one,
/// advancing the target's writer count.
pub fn resolve_pass_ds(
    p: &PassBuilder,
    ds_reg: &Vec<DepthStencilAttachment>,
    ds_targets: &mut Vec<Option<Target>>,
) -> (desc: Option<DepthStencilAttachmentDesc>)
    requires
        old(ds_targets)@.len() == ds_reg@.len(),
        p.depth_stencil matches Some(id) ==> id < ds_reg@.len() && old(ds_targets)@[id as int]
            is Some && old(ds_targets)@[id as int].unwrap().written < usize::MAX,
    ensures
        match p.depth_stencil {
            Some(id) => {
                &&& desc is Some
                &&& desc.unwrap().format == ds_reg@[id as int].format
                &&& desc.unwrap().view == view_of(old(ds_targets)@[id as int].unwrap().range)
                &&& desc.unwrap().clear == (if old(ds_targets)@[id as int].unwrap().written == 0 {
                    ds_reg@[id as int].clear
                } else {
                    None
                })
            },
            None => desc is None,
        },
        final(ds_targets)@.len() == old(ds_targets)@.len(),
        forall|id: usize|
            (id as int) < old(ds_targets)@.len() ==> #[trigger] final(ds_targets)@[id as int]
                == (match old(ds_targets)@[id as int] {
                Some(t) => Some(
                    Target {
                        range: t.range,
                        written: (t.written + pass_ds_writes(*p, id)) as usize,
                    },
                ),
                None => None,
            }),
{
    match p.depth_stencil {
        Some(id) => {
            let t = match ds_targets[id] {
                Some(t) => t,
                None => vstd::pervasive::unreached(),
            };
            let clear = if t.written == 0 {
                ds_reg[id].clear
            } else {
                None
            };
            let view = if t.range.start == 0 && t.range.end == 0 {
                AttachmentImageViews::External
            } else {
                AttachmentImageViews::Owned(t.range)
            };
            ds_targets[id] = Some(Target { range: t.range, written: t.written + 1 });
            Some(DepthStencilAttachmentDesc { format: ds_reg[id].format, view, clear })
        },
        None => None,
    }
}

/// The predecessor index a node waits on, if any.
pub open spec fn node_dep_id(n: PassNode) -> Option<usize> {
    match n.depends {
        Some(d) => Some(d.0),
        None => None,
    }
}

/// The recorded wait edges are exactly the deduplicated "last dependency"
/// records: a node's edge comes from its recorded last dependency, waits
/// at top-of-pipe, no two nodes wait on the same predecessor, and every
/// recorded last dependency is covered by an edge no later than its own
/// pass.
pub open spec fn edges_resolve(nodes: Seq<PassNode>, deps: Seq<Option<usize>>) -> bool {
    &&& forall|k: int|
        0 <= k < nodes.len() ==> (match #[trigger] nodes[k].depends {
            Some(d) => deps[k] == Some(d.0) && d.1 == PipelineStage::TopOfPipe,
            None => true,
        })
    &&& forall|k1: int, k2: int|
        #![trigger node_dep_id(nodes[k1]), node_dep_id(nodes[k2])]
        0 <= k1 < nodes.len() && 0 <= k2 < nodes.len() && node_dep_id(nodes[k1]) is Some
            && node_dep_id(nodes[k1]) == node_dep_id(nodes[k2]) ==> k1 == k2
    &&& forall|k: int|
        0 <= k < nodes.len() ==> (match #[trigger] deps[k] {
            Some(ld) => exists|k2: int|
                0 <= k2 <= k && node_dep_id(#[trigger] nodes[k2]) == Some(ld),
            None => nodes[k].depends is None,
        })
}

/// Does some already-built node record `ld` as its wait predecessor?
fn already_claimed(nodes: &Vec<PassNode>, ld: usize) -> (b: bool)
    ensures
        b == exists|kk: int| 0 <= kk < nodes@.len() && node_dep_id(#[trigger] nodes@[kk]) == Some(
            ld,
        ),
{
    let mut kk: usize = 0;
    while kk < nodes.len()
        invariant
            kk <= nodes@.len(),
            forall|j: int| 0 <= j < kk ==> node_dep_id(#[trigger] nodes@[j]) != Some(ld),
        decreases nodes@.len() - kk,
    {
        let claimed = match nodes[kk].depends {
            Some(d) => d.0 == ld,
            None => false,
        };
        if claimed {
            return true;
        }
        kk = kk + 1;
    }
    false
}

/// The declared attachments of pass `p` all resolve: every input, color
/// and depth/stencil token is registered and has a target.
pub open spec fn pass_ready(p: PassBuilder, ct: Seq<Option<Target>>, dt: Seq<Option<Target>>) -> bool {
    &&& forall|c: int|
        0 <= c < p.inputs@.len() ==> attachment_ready(#[trigger] p.inputs@[c], ct, dt)
    &&& forall|c: int|
        0 <= c < p.colors@.len() ==> ((#[trigger] p.colors@[c]) as int) < ct.len()
            && ct[p.colors@[c] as int] is Some
    &&& match p.depth_stencil {
        Some(id) => (id as int) < dt.len() && dt[id as int] is Some,
        None => true,
    }
}

/// The resolved color descriptor in slot `c` of scheduled pass `k` carries
/// the registered format, the target's views, and the registered clear
/// value exactly when no earlier write — in an earlier pass or an earlier
/// slot of the same pass — touched the target.
pub open spec fn color_desc_resolves(
    sched: Seq<PassBuilder>,
    k: int,
    c: int,
    colors_reg: Seq<ColorAttachment>,
    ct: Seq<Option<Target>>,
    desc: ColorAttachmentDesc,
) -> bool {
    let id = sched[k].colors@[c];
    &&& desc.format == colors_reg[id as int].format
    &&& desc.view == view_of(ct[id as int].unwrap().range)
    &&& desc.clear == (if sched_color_writes(sched, k, id) + count_in_slots(
        sched[k].colors@,
        c,
        id,
    ) == 0 {
        colors_reg[id as int].clear
    } else {
        None
    })
}

/// The resolved depth/stencil descriptor of scheduled pass `k`, clearing
/// exactly when this pass is the target's first writer.
pub open spec fn ds_desc_resolves(
    sched: Seq<PassBuilder>,
    k: int,
    ds_reg: Seq<DepthStencilAttachment>,
    dt: Seq<Option<Target>>,
    desc: Option<DepthStencilAttachmentDesc>,
) -> bool {
    match sched[k].depth_stencil {
        Some(id) => {
            &&& desc is Some
            &&& desc.unwrap().format == ds_reg[id as int].format
            &&& desc.unwrap().view == view_of(dt[id as int].unwrap().range)
            &&& desc.unwrap().clear == (if sched_ds_writes(sched, k, id) == 0 {
                ds_reg[id as int].clear
            } else {
                None
            })
        },
        None => desc is None,
    }
}

/// The node of scheduled pass `k` resolves its declaration: same name,
/// descriptors with the registered formats and target views, and the
/// first-writer-clears policy.  `ct` and `dt` are the freshly allocated
/// targets, before any writer counts advanced.
pub open spec fn node_resolves(
    sched: Seq<PassBuilder>,
    k: int,
    colors_reg: Seq<ColorAttachment>,
    ds_reg: Seq<DepthStencilAttachment>,
    ct: Seq<Option<Target>>,
    dt: Seq<Option<Target>>,
    node: PassNode,
) -> bool {
    &&& node.name == sched[k].name
    &&& node.inputs@.len() == sched[k].inputs@.len()
    &&& forall|c: int|
        0 <= c < sched[k].inputs@.len() ==> #[trigger] node.inputs@[c] == input_desc_spec(
            sched[k].inputs@[c],
            colors_reg,
            ds_reg,
            ct,
            dt,
        )
    &&& node.colors@.len() == sched[k].colors@.len()
    &&& forall|c: int|
        0 <= c < sched[k].colors@.len() ==> color_desc_resolves(
            sched,
            k,
            c,
            colors_reg,
            ct,
            #[trigger] node.colors@[c],
        )
    &&& ds_desc_resolves(sched, k, ds_reg, dt, node.depth_stencil)
}

/// `fd` is the index of the first scheduled pass that writes the
/// presentation attachment, or `None` if no pass does.
pub open spec fn first_surface_write_is(
    sched: Seq<PassBuilder>,
    present: usize,
    fd: Option<usize>,
) -> bool {
    match fd {
        Some(i) => {
            &&& (i as int) < sched.len()
            &&& sched[i as int].colors@.contains(present)
            &&& forall|k: int| 0 <= k < i ==> !(#[trigger] sched[k]).colors@.contains(present)
        },
        None => forall|k: int|
            0 <= k < sched.len() ==> !(#[trigger] sched[k]).colors@.contains(present),
    }
}

/// Resolve every scheduled pass into its node, in order: concrete view
/// descriptors with the first-writer-clears policy, plus the deduplicated
/// wait edge.  Also reports the index of the first pass writing the
/// presentation attachment.
#[verifier::rlimit(100)]
pub fn make_pass_nodes(
    sched: Vec<PassBuilder>,
    deps: &Vec<Option<usize>>,
    colors_reg: &Vec<ColorAttachment>,
    ds_reg: &Vec<DepthStencilAttachment>,
    color_targets: &mut Vec<Option<Target>>,
    ds_targets: &mut Vec<Option<Target>>,
    present: usize,
) -> (out: (Vec<PassNode>, Option<usize>))
    requires
        deps@.len() == sched@.len(),
        old(color_targets)@.len() == colors_reg@.len(),
        old(ds_targets)@.len() == ds_reg@.len(),
        forall|k: int|
            0 <= k < sched@.len() ==> pass_ready(
                #[trigger] sched@[k],
                old(color_targets)@,
                old(ds_targets)@,
            ),
        forall|id: int|
            0 <= id < old(color_targets)@.len() && old(color_targets)@[id] is Some
                ==> (#[trigger] old(color_targets)@[id]).unwrap().written == 0,
        forall|id: int|
            0 <= id < old(ds_targets)@.len() && old(ds_targets)@[id] is Some ==> (#[trigger] old(
                ds_targets,
            )@[id]).unwrap().written == 0,
        total_color_slots(sched@, sched@.len() as int) <= usize::MAX,
    ensures
        out.0@.len() == sched@.len(),
        forall|k: int|
            0 <= k < sched@.len() ==> node_resolves(
                sched@,
                k,
                colors_reg@,
                ds_reg@,
                old(color_targets)@,
                old(ds_targets)@,
                #[trigger] out.0@[k],
            ),
        edges_resolve(out.0@, deps@),
        first_surface_write_is(sched@, present, out.1),
{
    let ghost ct0 = color_targets@;
    let ghost dt0 = ds_targets@;
    let mut nodes: Vec<PassNode> = Vec::new();
    let mut first: Option<usize> = None;
    let n = sched.len();
    let mut k: usize = 0;
    while k < n
        invariant
            n == sched@.len(),
            k <= n,
            deps@.len() == n,
            nodes@.len() == k,
            colors_reg@.len() == ct0.len(),
            ds_reg@.len() == dt0.len(),
            color_targets@.len() == ct0.len(),
            ds_targets@.len() == dt0.len(),
            total_color_slots(sched@, sched@.len() as int) <= usize::MAX,
            forall|kk: int|
                0 <= kk < sched@.len() ==> pass_ready(#[trigger] sched@[kk], ct0, dt0),
            forall|id: int|
                0 <= id < ct0.len() && ct0[id] is Some ==> (#[trigger] ct0[id]).unwrap().written
                    == 0,
            forall|id: int|
                0 <= id < dt0.len() && dt0[id] is Some ==> (#[trigger] dt0[id]).unwrap().written
                    == 0,
            forall|id: usize|
                (id as int) < ct0.len() ==> #[trigger] color_targets@[id as int] == (match ct0[id as int] {
                    Some(t) => Some(
                        Target {
                            range: t.range,
                            written: sched_color_writes(sched@, k as int, id) as usize,
                        },
                    ),
                    None => None,
                }),
            forall|id: usize|
                (id as int) < dt0.len() ==> #[trigger] ds_targets@[id as int] == (match dt0[id as int] {
                    Some(t) => Some(
                        Target {
                            range: t.range,
                            written: sched_ds_writes(sched@, k as int, id) as usize,
                        },
                    ),
                    None => None,
                }),
            forall|id: usize|
                (id as int) < ct0.len() && ct0[id as int] is Some ==> sched_color_writes(
                    sched@,
                    k as int,
                    id,
                ) <= usize::MAX,
            forall|id: usize|
                (id as int) < dt0.len() && dt0[id as int] is Some ==> sched_ds_writes(
                    sched@,
                    k as int,
                    id,
                ) <= usize::MAX,
            forall|kk: int|
                0 <= kk < k ==> node_resolves(
                    sched@,
                    kk,
                    colors_reg@,
                    ds_reg@,
                    ct0,
                    dt0,
                    #[trigger] nodes@[kk],
                ),
            edges_resolve(nodes@, deps@),
            first_surface_write_is(sched@.take(k as int), present, first),
        decreases n - k,
    {
        proof {
            lemma_sched_color_writes_bounds(sched@, k as int);
            lemma_sched_ds_writes_bounds(sched@, k as int);
        }
        let p = &sched[k];
        proof {
            assert(pass_ready(sched@[k as int], ct0, dt0));
            assert forall|c: int| 0 <= c < p.inputs@.len() implies attachment_ready(
                #[trigger] p.inputs@[c],
                color_targets@,
                ds_targets@,
            ) by {
                assert(attachment_ready(p.inputs@[c], ct0, dt0));
                match p.inputs@[c] {
                    Attachment::Color(id) => {
                        assert(color_targets@[id as int] is Some);
                    },
                    Attachment::DepthStencil(id) => {
                        assert(ds_targets@[id as int] is Some);
                    },
                }
            }
        }
        let inputs = resolve_pass_inputs(p, colors_reg, ds_reg, color_targets, ds_targets);
        let ghost ct_at_pass = color_targets@;
        let ghost dt_at_pass = ds_targets@;
        proof {
            lemma_sched_color_writes_bounds(sched@, k as int + 1);
            assert forall|id: usize|
                id < colors_reg@.len() && color_targets@[id as int] is Some implies (#[trigger] color_targets@[id as int]).unwrap().written
                + pass_color_writes(*p, id) <= usize::MAX by {
                assert(color_targets@[id as int].unwrap().written == sched_color_writes(
                    sched@,
                    k as int,
                    id,
                ));
                assert(sched_color_writes(sched@, k as int + 1, id) == sched_color_writes(
                    sched@,
                    k as int,
                    id,
                ) + pass_color_writes(sched@[k as int], id));
            }
            match p.depth_stencil {
                Some(id) => {
                    assert(ds_targets@[id as int].unwrap().written == sched_ds_writes(
                        sched@,
                        k as int,
                        id,
                    ));
                    lemma_sched_ds_writes_le(sched@, k as int, id);
                },
                None => {},
            }
        }
        let colors = resolve_pass_colors(p, colors_reg, color_targets);
        let ds = resolve_pass_ds(p, ds_reg, ds_targets);
        let depends: Option<(usize, PipelineStage)> = match deps[k] {
            Some(ld) => {
                if already_claimed(&nodes, ld) {
                    None
                } else {
                    Some((ld, PipelineStage::TopOfPipe))
                }
            },
            None => None,
        };
        let node = PassNode { name: p.name.clone(), inputs, colors, depth_stencil: ds, depends };
        let ghost old_nodes = nodes@;
        let ghost old_first = first;
        nodes.push(node);
        first = match first {
            Some(i) => Some(i),
            None => {
                if crate::schedule::writes_color(p, present) {
                    Some(k)
                } else {
                    None
                }
            },
        };
        proof {
            let kk = k as int;
            // The freshly resolved node matches its declaration against the
            // initial targets: ranges never change, and the writer counts
            // at this pass are exactly the counts over the scheduled prefix.
            assert forall|c: int| 0 <= c < sched@[kk].inputs@.len() implies #[trigger] node.inputs@[c]
                == input_desc_spec(sched@[kk].inputs@[c], colors_reg@, ds_reg@, ct0, dt0) by {
                assert(node.inputs@[c] == input_desc_spec(
                    sched@[kk].inputs@[c],
                    colors_reg@,
                    ds_reg@,
                    ct_at_pass,
                    dt_at_pass,
                ));
                match sched@[kk].inputs@[c] {
                    Attachment::Color(id) => {
                        assert(ct_at_pass[id as int].unwrap().range == ct0[id as int].unwrap().range);
                    },
                    Attachment::DepthStencil(id) => {
                        assert(dt_at_pass[id as int].unwrap().range == dt0[id as int].unwrap().range);
                    },
                }
            }
            assert forall|c: int| 0 <= c < sched@[kk].colors@.len() implies color_desc_resolves(
                sched@,
                kk,
                c,
                colors_reg@,
                ct0,
                #[trigger] node.colors@[c],
            ) by {
                let id = sched@[kk].colors@[c];
                assert(ct_at_pass[id as int].unwrap().range == ct0[id as int].unwrap().range);
                assert(ct_at_pass[id as int].unwrap().written == sched_color_writes(
                    sched@,
                    kk,
                    id,
                ));
            }
            assert(ds_desc_resolves(sched@, kk, ds_reg@, dt0, node.depth_stencil)) by {
                match sched@[kk].depth_stencil {
                    Some(id) => {
                        assert(dt_at_pass[id as int].unwrap().range == dt0[id as int].unwrap().range);
                        assert(dt_at_pass[id as int].unwrap().written == sched_ds_writes(
                            sched@,
                            kk,
                            id,
                        ));
                    },
                    None => {},
                }
            }
            assert(node_resolves(sched@, kk, colors_reg@, ds_reg@, ct0, dt0, node));
            // Writer counts advanced by exactly this pass's writes.
            assert forall|id: usize| (id as int) < ct0.len() implies #[trigger] color_targets@[id as int]
                == (match ct0[id as int] {
                Some(t) => Some(
                    Target {
                        range: t.range,
                        written: sched_color_writes(sched@, kk + 1, id) as usize,
                    },
                ),
                None => None,
            }) by {
                assert(sched_color_writes(sched@, kk + 1, id) == sched_color_writes(sched@, kk, id)
                    + pass_color_writes(sched@[kk], id));
            }
            assert forall|id: usize| (id as int) < dt0.len() implies #[trigger] ds_targets@[id as int]
                == (match dt0[id as int] {
                Some(t) => Some(
                    Target {
                        range: t.range,
                        written: sched_ds_writes(sched@, kk + 1, id) as usize,
                    },
                ),
                None => None,
            }) by {
                assert(sched_ds_writes(sched@, kk + 1, id) == sched_ds_writes(sched@, kk, id)
                    + pass_ds_writes(sched@[kk], id));
            }
            lemma_sched_color_writes_bounds(sched@, kk + 1);
            lemma_sched_ds_writes_bounds(sched@, kk + 1);
            // The new edge keeps the wait edges resolved.
            assert(edges_resolve(nodes@, deps@)) by {
                assert(forall|j: int|
                    0 <= j < old_nodes.len() ==> nodes@[j] == #[trigger] old_nodes[j]);
                assert(nodes@[kk] == node);
                assert forall|j1: int, j2: int|
                    #![trigger node_dep_id(nodes@[j1]), node_dep_id(nodes@[j2])]
                    0 <= j1 < nodes@.len() && 0 <= j2 < nodes@.len() && node_dep_id(nodes@[j1])
                        is Some && node_dep_id(nodes@[j1]) == node_dep_id(nodes@[j2]) implies j1
                    == j2 by {
                    if j1 != j2 {
                        if j1 == kk {
                            assert(node_dep_id(old_nodes[j2]) != node_dep_id(node));
                        } else if j2 == kk {
                            assert(node_dep_id(old_nodes[j1]) != node_dep_id(node));
                        }
                    }
                }
                assert forall|j: int| 0 <= j < nodes@.len() implies (match #[trigger] deps@[j] {
                    Some(ld) => exists|j2: int|
                        0 <= j2 <= j && node_dep_id(#[trigger] nodes@[j2]) == Some(ld),
                    None => nodes@[j].depends is None,
                }) by {
                    if j < kk {
                        assert(match deps@[j] {
                            Some(ld) => exists|j2: int|
                                0 <= j2 <= j && node_dep_id(#[trigger] old_nodes[j2]) == Some(ld),
                            None => old_nodes[j].depends is None,
                        });
                        match deps@[j] {
                            Some(ld) => {
                                let j2 = choose|j2: int|
                                    0 <= j2 <= j && node_dep_id(#[trigger] old_nodes[j2]) == Some(
                                        ld,
                                    );
                                assert(node_dep_id(nodes@[j2]) == Some(ld));
                            },
                            None => {},
                        }
                    } else {
                        match deps@[j] {
                            Some(ld) => {
                                if node.depends is Some {
                                    assert(node_dep_id(nodes@[kk]) == Some(ld));
                                } else {
                                    let j2 = choose|j2: int|
                                        0 <= j2 < old_nodes.len() && node_dep_id(
                                            #[trigger] old_nodes[j2],
                                        ) == Some(ld);
                                    assert(node_dep_id(nodes@[j2]) == Some(ld));
                                }
                            },
                            None => {},
                        }
                    }
                }
            }
            // First-surface-write bookkeeping.
            assert(first_surface_write_is(sched@.take(kk + 1), present, first)) by {
                assert(sched@.take(kk + 1)[kk] == sched@[kk]);
                assert(forall|j: int|
                    0 <= j < kk ==> sched@.take(kk + 1)[j] == #[trigger] sched@.take(kk)[j]);
                match old_first {
                    Some(i) => {
                        assert(sched@.take(kk)[i as int] == sched@.take(kk + 1)[i as int]);
                    },
                    None => {},
                }
            }
        }
        k = k + 1;
    }
    proof {
        assert(sched@.take(n as int) =~= sched@);
    }
    (nodes, first)
}

/// The writer counts over any scheduled prefix stay within the machine
/// bounds that the declaration set's total slot count imposes.
proof fn lemma_sched_color_writes_bounds(sched: Seq<PassBuilder>, k: int)
    requires
        0 <= k <= sched.len(),
        total_color_slots(sched, sched.len() as int) <= usize::MAX,
    ensures
        forall|id: usize| sched_color_writes(sched, k, id) <= total_color_slots(sched, k),
        total_color_slots(sched, k) <= total_color_slots(sched, sched.len() as int),
{
    assert forall|id: usize| sched_color_writes(sched, k, id) <= total_color_slots(sched, k) by {
        lemma_sched_color_writes_le(sched, k, id);
    }
    lemma_total_color_slots_mono(sched, k, sched.len() as int);
}

proof fn lemma_sched_ds_writes_bounds(sched: Seq<PassBuilder>, k: int)
    requires
        0 <= k <= sched.len(),
    ensures
        forall|id: usize| sched_ds_writes(sched, k, id) <= k,
{
    assert forall|id: usize| sched_ds_writes(sched, k, id) <= k by {
        lemma_sched_ds_writes_le(sched, k, id);
    }
}

/// Two sequences that agree on their first `k` elements declare the same
/// number of color slots there.
proof fn lemma_total_slots_agree(a: Seq<PassBuilder>, b: Seq<PassBuilder>, k: int)
    requires
        0 <= k <= a.len(),
        k <= b.len(),
        forall|j: int| 0 <= j < k ==> a[j] == #[trigger] b[j],
    ensures
        total_color_slots(a, k) == total_color_slots(b, k),
    decreases k,
{
    if k > 0 {
        lemma_total_slots_agree(a, b, k - 1);
    }
}

/// Removing one pass removes exactly its color slots from the total.
proof fn lemma_total_slots_remove(s: Seq<PassBuilder>, i: int)
    requires
        0 <= i < s.len(),
    ensures
        total_color_slots(s, s.len() as int) == total_color_slots(s.remove(i), s.len() - 1)
            + s[i].colors@.len(),
    decreases s.len(),
{
    let n = s.len() as int;
    if i == n - 1 {
        lemma_total_slots_agree(s, s.remove(i), n - 1);
    } else {
        let t = s.take(n - 1);
        lemma_total_slots_agree(s, t, n - 1);
        lemma_total_slots_remove(t, i);
        lemma_total_slots_agree(s.remove(i), t.remove(i), n - 2);
        assert(s.remove(i)[n - 2] == s[n - 1]);
        assert(total_color_slots(s.remove(i), n - 1) == total_color_slots(s.remove(i), n - 2)
            + s.remove(i)[n - 2].colors@.len());
        assert(t[i] == s[i]);
    }
}

/// Reordering passes does not change the total number of color slots.
proof fn lemma_total_slots_permutation(a: Seq<PassBuilder>, b: Seq<PassBuilder>)
    requires
        a.to_multiset() == b.to_multiset(),
    ensures
        total_color_slots(a, a.len() as int) == total_color_slots(b, b.len() as int),
    decreases a.len(),
{
    broadcast use vstd::seq_lib::group_to_multiset_ensures;
    broadcast use vstd::multiset::group_multiset_axioms;

    if a.len() == 0 {
        assert(b.to_multiset().len() == 0);
    } else {
        let n = a.len() as int;
        let x = a[n - 1];
        assert(a.contains(x));
        assert(a.to_multiset().count(x) > 0);
        assert(b.contains(x));
        let i = choose|i: int| 0 <= i < b.len() && b[i] == x;
        lemma_total_slots_remove(a, n - 1);
        lemma_total_slots_remove(b, i);
        assert(a.remove(n - 1).to_multiset() == b.remove(i).to_multiset()) by {
            assert(a.remove(n - 1).to_multiset() =~= a.to_multiset().remove(x));
            assert(b.remove(i).to_multiset() =~= b.to_multiset().remove(x));
        }
        lemma_total_slots_permutation(a.remove(n - 1), b.remove(i));
    }
}

/// Reordering passes does not change which attachments are written.
proof fn lemma_used_permutation(a: Seq<PassBuilder>, b: Seq<PassBuilder>)
    requires
        a.to_multiset() == b.to_multiset(),
    ensures
        forall|id: usize| spec_used_color(a, id) == spec_used_color(b, id),
        forall|id: usize| spec_used_ds(a, id) == spec_used_ds(b, id),
{
    broadcast use vstd::seq_lib::group_to_multiset_ensures;
    broadcast use vstd::multiset::group_multiset_axioms;

    assert forall|id: usize| spec_used_color(a, id) == spec_used_color(b, id) by {
        if spec_used_color(a, id) {
            let k = choose|k: int| 0 <= k < a.len() && (#[trigger] a[k]).colors@.contains(id);
            assert(a.contains(a[k]));
            assert(a.to_multiset().count(a[k]) > 0);
            assert(b.contains(a[k]));
            let j = choose|j: int| 0 <= j < b.len() && b[j] == a[k];
            assert(spec_used_color(b, id));
        }
        if spec_used_color(b, id) {
            let k = choose|k: int| 0 <= k < b.len() && (#[trigger] b[k]).colors@.contains(id);
            assert(b.contains(b[k]));
            assert(b.to_multiset().count(b[k]) > 0);
            assert(a.contains(b[k]));
            let j = choose|j: int| 0 <= j < a.len() && a[j] == b[k];
            assert(spec_used_color(a, id));
        }
    }
    assert forall|id: usize| spec_used_ds(a, id) == spec_used_ds(b, id) by {
        if spec_used_ds(a, id) {
            let k = choose|k: int| 0 <= k < a.len() && (#[trigger] a[k]).depth_stencil == Some(id);
            assert(a.contains(a[k]));
            assert(a.to_multiset().count(a[k]) > 0);
            assert(b.contains(a[k]));
            let j = choose|j: int| 0 <= j < b.len() && b[j] == a[k];
            assert(spec_used_ds(b, id));
        }
        if spec_used_ds(b, id) {
            let k = choose|k: int| 0 <= k < b.len() && (#[trigger] b[k]).depth_stencil == Some(id);
            assert(b.contains(b[k]));
            assert(b.to_multiset().count(b[k]) > 0);
            assert(a.contains(b[k]));
            let j = choose|j: int| 0 <= j < a.len() && a[j] == b[k];
            assert(spec_used_ds(a, id));
        }
    }
}

/// Does any node wait on scheduled pass `i`?
fn any_waits_on(nodes: &Vec<PassNode>, i: usize) -> (b: bool)
    ensures
        b == exists|j: int| 0 <= j < nodes@.len() && node_dep_id(#[trigger] nodes@[j]) == Some(i),
{
    let mut j: usize = 0;
    while j < nodes.len()
        invariant
            j <= nodes@.len(),
            forall|jj: int| 0 <= jj < j ==> node_dep_id(#[trigger] nodes@[jj]) != Some(i),
        decreases nodes@.len() - j,
    {
        let waits = match nodes[j].depends {
            Some(d) => d.0 == i,
            None => false,
        };
        if waits {
            return true;
        }
        j = j + 1;
    }
    false
}

/// Create one semaphore for every pass that some later pass waits on; the
/// parallel array holds `Some` at index `i` exactly when a node records
/// `i` as its wait predecessor.
pub fn plan_signals<Img, V, S, E, D: RenderDevice<Img, V, S, E>>(
    nodes: &Vec<PassNode>,
    device: &mut D,
) -> (signals: Vec<Option<S>>)
    ensures
        signals@.len() == nodes@.len(),
        forall|i: usize|
            (i as int) < nodes@.len() ==> (((#[trigger] signals@[i as int]) is Some)
                <==> exists|j: int|
                0 <= j < nodes@.len() && node_dep_id(#[trigger] nodes@[j]) == Some(i)),
{
    let mut signals: Vec<Option<S>> = Vec::new();
    let mut i: usize = 0;
    while i < nodes.len()
        invariant
            i <= nodes@.len(),
            signals@.len() == i,
            forall|ii: usize|
                (ii as int) < i ==> (((#[trigger] signals@[ii as int]) is Some) <==> exists|j: int|
                    0 <= j < nodes@.len() && node_dep_id(#[trigger] nodes@[j]) == Some(ii)),
        decreases nodes@.len() - i,
    {
        if any_waits_on(nodes, i) {
            signals.push(Some(device.create_semaphore()));
        } else {
            signals.push(None);
        }
        i = i + 1;
    }
    signals
}

/// The number of frames in flight a backbuffer implies: one per
/// presentable image, or a single frame for an externally owned
/// framebuffer.
pub open spec fn spec_frames<Img, Fb>(bb: Backbuffer<Img, Fb>) -> nat {
    match bb {
        Backbuffer::Images(v) => v@.len(),
        Backbuffer::Framebuffer(_) => 1,
    }
}

/// One pass declaration is well formed against the registries and the
/// whole declaration set: every token is registered, and every input is
/// written by some pass of the set.
pub open spec fn pass_decl_wf(
    p: PassBuilder,
    n_colors: int,
    n_ds: int,
    ps: Seq<PassBuilder>,
) -> bool {
    &&& forall|c: int| 0 <= c < p.colors@.len() ==> (#[trigger] p.colors@[c] as int) < n_colors
    &&& match p.depth_stencil {
        Some(id) => (id as int) < n_ds,
        None => true,
    }
    &&& forall|c: int|
        0 <= c < p.inputs@.len() ==> (match #[trigger] p.inputs@[c] {
            Attachment::Color(id) => (id as int) < n_colors && spec_used_color(ps, id),
            Attachment::DepthStencil(id) => (id as int) < n_ds && spec_used_ds(ps, id),
        })
}

/// The graph node sequence `nodes`, together with `first`, is a faithful
/// resolution of the declaration set: the passes were reordered into the
/// witnessed topological schedule, every node resolves its scheduled
/// declaration with the first-writer-clears policy, the wait edges are the
/// deduplicated last dependencies, and `first` is the first scheduled pass
/// writing the presentation attachment.
pub open spec fn resolves_schedule(
    passes: Seq<PassBuilder>,
    colors_reg: Seq<ColorAttachment>,
    ds_reg: Seq<DepthStencilAttachment>,
    present: usize,
    sched: Seq<PassBuilder>,
    deps: Seq<Option<usize>>,
    ct: Seq<Option<Target>>,
    dt: Seq<Option<Target>>,
    nodes: Seq<PassNode>,
    first: usize,
) -> bool {
    &&& sched.to_multiset() == passes.to_multiset()
    &&& sched.len() == passes.len()
    &&& topo_sorted(sched)
    &&& deps_ok(sched, deps)
    &&& deps.len() == sched.len()
    &&& nodes.len() == sched.len()
    &&& forall|k: int|
        0 <= k < sched.len() ==> node_resolves(
            sched,
            k,
            colors_reg,
            ds_reg,
            ct,
            dt,
            #[trigger] nodes[k],
        )
    &&& edges_resolve(nodes, deps)
    &&& first_surface_write_is(sched, present, Some(first))
}

/// Collects everything a build needs: the attachment registries, the pass
/// declarations, the presentation attachment, the backbuffer and the
/// extent.  `build` consumes the builder and produces the graph.
pub struct GraphBuilder<'a, Img, Fb> {
    pub colors: Vec<ColorAttachment>,
    pub depth_stencils: Vec<DepthStencilAttachment>,
    pub passes: Vec<PassBuilder>,
    pub present: Option<usize>,
    pub backbuffer: Option<&'a Backbuffer<Img, Fb>>,
    pub extent: Extent,
}

impl<'a, Img, Fb> GraphBuilder<'a, Img, Fb> {
    /// The collected declarations are well formed: all tokens registered,
    /// all inputs written by some pass.
    pub open spec fn wf(&self) -> bool {
        &&& forall|k: int|
            0 <= k < self.passes@.len() ==> pass_decl_wf(
                #[trigger] self.passes@[k],
                self.colors@.len() as int,
                self.depth_stencils@.len() as int,
                self.passes@,
            )
        &&& match self.present {
            Some(p) => (p as int) < self.colors@.len(),
            None => true,
        }
    }

    /// Start an empty builder.
    pub fn new() -> (b: GraphBuilder<'a, Img, Fb>)
        ensures
            b.colors@.len() == 0,
            b.depth_stencils@.len() == 0,
            b.passes@.len() == 0,
            b.present is None,
            b.backbuffer is None,
            b.extent == (Extent { width: 0, height: 0, depth: 0 }),
            b.wf(),
    {
        GraphBuilder {
            colors: Vec::new(),
            depth_stencils: Vec::new(),
            passes: Vec::new(),
            present: None,
            backbuffer: None,
            extent: Extent { width: 0, height: 0, depth: 0 },
        }
    }

    /// Register a color attachment; the returned token names it in pass
    /// declarations.
    pub fn register_color(&mut self, attachment: ColorAttachment) -> (id: usize)
        ensures
            id == old(self).colors@.len(),
            final(self).colors@ == old(self).colors@.push(attachment),
            final(self).depth_stencils == old(self).depth_stencils,
            final(self).passes == old(self).passes,
            final(self).present == old(self).present,
            final(self).backbuffer == old(self).backbuffer,
            final(self).extent == old(self).extent,
    {
        let id = self.colors.len();
        self.colors.push(attachment);
        id
    }

    /// Register a depth/stencil attachment; the returned token names it in
    /// pass declarations.
    pub fn register_depth_stencil(&mut self, attachment: DepthStencilAttachment) -> (id: usize)
        ensures
            id == old(self).depth_stencils@.len(),
            final(self).depth_stencils@ == old(self).depth_stencils@.push(attachment),
            final(self).colors == old(self).colors,
            final(self).passes == old(self).passes,
            final(self).present == old(self).present,
            final(self).backbuffer == old(self).backbuffer,
            final(self).extent == old(self).extent,
    {
        let id = self.depth_stencils.len();
        self.depth_stencils.push(attachment);
        id
    }

    /// Add a pass declaration.
    pub fn add_pass(&mut self, pass: PassBuilder)
        ensures
            final(self).passes@ == old(self).passes@.push(pass),
            final(self).colors == old(self).colors,
            final(self).depth_stencils == old(self).depth_stencils,
            final(self).present == old(self).present,
            final(self).backbuffer == old(self).backbuffer,
            final(self).extent == old(self).extent,
    {
        self.passes.push(pass);
    }

    /// Add a pass declaration, by value.
    pub fn with_pass(self, pass: PassBuilder) -> (b: GraphBuilder<'a, Img, Fb>)
        ensures
            b.passes@ == self.passes@.push(pass),
            b.colors == self.colors,
            b.depth_stencils == self.depth_stencils,
            b.present == self.present,
            b.backbuffer == self.backbuffer,
            b.extent == self.extent,
    {
        let mut b = self;
        b.add_pass(pass);
        b
    }

    /// Set the extent that sizes every newly allocated target.
    pub fn set_extent(&mut self, extent: Extent)
        ensures
            final(self).extent == extent,
            final(self).colors == old(self).colors,
            final(self).depth_stencils == old(self).depth_stencils,
            final(self).passes == old(self).passes,
            final(self).present == old(self).present,
            final(self).backbuffer == old(self).backbuffer,
    {
        self.extent = extent;
    }

    /// Set the extent, by value.
    pub fn with_extent(self, extent: Extent) -> (b: GraphBuilder<'a, Img, Fb>)
        ensures
            b.extent == extent,
            b.colors == self.colors,
            b.depth_stencils == self.depth_stencils,
            b.passes == self.passes,
            b.present == self.present,
            b.backbuffer == self.backbuffer,
    {
        let mut b = self;
        b.set_extent(extent);
        b
    }

    /// Set the backbuffer the graph presents to.
    pub fn set_backbuffer(&mut self, backbuffer: &'a Backbuffer<Img, Fb>)
        ensures
            final(self).backbuffer == Some(backbuffer),
            final(self).colors == old(self).colors,
            final(self).depth_stencils == old(self).depth_stencils,
            final(self).passes == old(self).passes,
            final(self).present == old(self).present,
            final(self).extent == old(self).extent,
    {
        self.backbuffer = Some(backbuffer);
    }

    /// Set the backbuffer, by value.
    pub fn with_backbuffer(self, backbuffer: &'a Backbuffer<Img, Fb>) -> (b: GraphBuilder<
        'a,
        Img,
        Fb,
    >)
        ensures
            b.backbuffer == Some(backbuffer),
            b.colors == self.colors,
            b.depth_stencils == self.depth_stencils,
            b.passes == self.passes,
            b.present == self.present,
            b.extent == self.extent,
    {
        let mut b = self;
        b.set_backbuffer(backbuffer);
        b
    }

    /// Choose the presentation attachment, by its color token.
    pub fn set_present(&mut self, present: usize)
        ensures
            final(self).present == Some(present),
            final(self).colors == old(self).colors,
            final(self).depth_stencils == old(self).depth_stencils,
            final(self).passes == old(self).passes,
            final(self).backbuffer == old(self).backbuffer,
            final(self).extent == old(self).extent,
    {
        self.present = Some(present);
    }

    /// Choose the presentation attachment, by value.
    pub fn with_present(self, present: usize) -> (b: GraphBuilder<'a, Img, Fb>)
        ensures
            b.present == Some(present),
            b.colors == self.colors,
            b.depth_stencils == self.depth_stencils,
            b.passes == self.passes,
            b.backbuffer == self.backbuffer,
            b.extent == self.extent,
    {
        let mut b = self;
        b.set_present(present);
        b
    }
}

impl<'a, Img, Fb> GraphBuilder<'a, Img, Fb> {
    /// Build the graph: create views for the backbuffer, order the passes
    /// (rejecting cyclic declarations), allocate backing storage for every
    /// written attachment, resolve every pass into its node with the
    /// first-writer-clears policy, and plan the semaphores.
    ///
    /// The build is all-or-nothing: the first failure aborts it and no
    /// graph is returned.
    #[verifier::rlimit(100)]
    pub fn build<V, S, E, D: RenderDevice<Img, V, S, E>>(self, device: &mut D) -> (r: Result<
        Graph<Img, V, S>,
        GraphBuildError<E>,
    >)
        requires
            self.wf(),
            self.present is Some && self.backbuffer is Some ==> spec_used_color(
                self.passes@,
                self.present.unwrap(),
            ),
            total_color_slots(self.passes@, self.passes@.len() as int) <= usize::MAX,
            match self.backbuffer {
                Some(bb) => spec_frames(*bb) + spec_frames(*bb) * (self.colors@.len()
                    + self.depth_stencils@.len()) <= usize::MAX,
                None => true,
            },
        ensures
            (r matches Err(GraphBuildError::MissingPresentAttachment)) <==> self.present is None,
            (r matches Err(GraphBuildError::MissingBackbuffer)) <==> (self.present is Some
                && self.backbuffer is None),
            r matches Err(GraphBuildError::CircularDependency) ==> cycle_exists(self.passes@),
            r matches Err(GraphBuildError::TargetAllocationFailed(_)) ==> self.present is Some
                && self.backbuffer is Some && !cycle_exists(self.passes@),
            r matches Err(GraphBuildError::ImageViewCreationFailed(_)) ==> self.present is Some
                && self.backbuffer is Some,
            self.present is Some && self.backbuffer is Some && cycle_exists(self.passes@) ==> r
                is Err,
            r matches Ok(g) ==> {
                &&& self.present is Some
                &&& self.backbuffer is Some
                &&& !cycle_exists(self.passes@)
                &&& g.passes@.len() == self.passes@.len()
                &&& g.signals@.len() == self.passes@.len()
                &&& g.frames == spec_frames(*self.backbuffer.unwrap())
                &&& forall|i: usize|
                    (i as int) < g.passes@.len() ==> (((#[trigger] g.signals@[i as int]) is Some)
                        <==> exists|j: int|
                        0 <= j < g.passes@.len() && node_dep_id(#[trigger] g.passes@[j]) == Some(
                            i,
                        ))
                &&& exists|
                    sched: Seq<PassBuilder>,
                    deps: Seq<Option<usize>>,
                    ct: Seq<Option<Target>>,
                    dt: Seq<Option<Target>>,
                |
                    #[trigger] resolves_schedule(
                        self.passes@,
                        self.colors@,
                        self.depth_stencils@,
                        self.present.unwrap(),
                        sched,
                        deps,
                        ct,
                        dt,
                        g.passes@,
                        g.first_draws_to_surface,
                    )
            },
    {
        broadcast use vstd::seq_lib::group_to_multiset_ensures;
        broadcast use vstd::multiset::group_multiset_axioms;

        let ghost passes0 = self.passes@;
        let GraphBuilder {
            colors,
            depth_stencils,
            passes,
            present: present_opt,
            backbuffer: backbuffer_opt,
            extent,
        } = self;
        let present = match present_opt {
            Some(p) => p,
            None => {
                return Err(GraphBuildError::MissingPresentAttachment);
            },
        };
        let backbuffer = match backbuffer_opt {
            Some(b) => b,
            None => {
                return Err(GraphBuildError::MissingBackbuffer);
            },
        };
        // Create views for the backbuffer's own images, if it has any.
        let mut images: Vec<Img> = Vec::new();
        let mut views: Vec<V> = Vec::new();
        let frames: usize = match backbuffer {
            Backbuffer::Images(bb_images) => {
                let mut i: usize = 0;
                while i < bb_images.len()
                    invariant
                        i <= bb_images@.len(),
                        views@.len() == i,
                        (present as int) < colors@.len(),
                        self.present is Some,
                        self.backbuffer is Some,
                    decreases bb_images@.len() - i,
                {
                    let view = match device.create_image_view(
                        &bb_images[i],
                        colors[present].format,
                    ) {
                        Ok(v) => v,
                        Err(e) => {
                            return Err(GraphBuildError::ImageViewCreationFailed(e));
                        },
                    };
                    views.push(view);
                    i = i + 1;
                }
                bb_images.len()
            },
            Backbuffer::Framebuffer(_) => 1,
        };
        let bb_view_count = views.len();
        // Reorder passes to keep every dependency before its dependants
        // while maximizing the chance of overlap.
        let reordered = match reorder_passes(passes) {
            Some(x) => x,
            None => {
                return Err(GraphBuildError::CircularDependency);
            },
        };
        let sched = reordered.0;
        let deps = reordered.1;
        let ghost sched_g = sched@;
        proof {
            lemma_used_permutation(passes0, sched_g);
            lemma_total_slots_permutation(passes0, sched_g);
            assert(spec_frames(*backbuffer) * (colors@.len() + depth_stencils@.len())
                == spec_frames(*backbuffer) * colors@.len() + spec_frames(*backbuffer)
                * depth_stencils@.len()) by (nonlinear_arith);
            assert(frames == spec_frames(*backbuffer));
            assert(bb_view_count + frames * colors@.len() + frames * depth_stencils@.len()
                <= usize::MAX);
        }
        // Materialize backing storage for every written attachment.
        let mut color_targets = match allocate_color_targets(
            &colors,
            &sched,
            present,
            bb_view_count,
            device,
            &mut images,
            &mut views,
            extent,
            frames,
        ) {
            Ok(t) => t,
            Err(e) => {
                return Err(e);
            },
        };
        let mut ds_targets = match allocate_ds_targets(
            &depth_stencils,
            &sched,
            device,
            &mut images,
            &mut views,
            extent,
            frames,
        ) {
            Ok(t) => t,
            Err(e) => {
                return Err(e);
            },
        };
        proof {
            assert forall|k: int| 0 <= k < sched_g.len() implies pass_ready(
                #[trigger] sched_g[k],
                color_targets@,
                ds_targets@,
            ) by {
                assert(sched_g.contains(sched_g[k]));
                assert(sched_g.to_multiset().count(sched_g[k]) > 0);
                assert(passes0.contains(sched_g[k]));
                let j = choose|j: int| 0 <= j < passes0.len() && passes0[j] == sched_g[k];
                assert(pass_decl_wf(
                    passes0[j],
                    colors@.len() as int,
                    depth_stencils@.len() as int,
                    passes0,
                ));
                assert forall|c: int| 0 <= c < sched_g[k].colors@.len() implies ((
                #[trigger] sched_g[k].colors@[c]) as int) < color_targets@.len()
                    && color_targets@[sched_g[k].colors@[c] as int] is Some by {
                    let id = sched_g[k].colors@[c];
                    assert(sched_g[k].colors@.contains(id));
                    assert(spec_used_color(sched_g, id));
                }
                match sched_g[k].depth_stencil {
                    Some(id) => {
                        assert(spec_used_ds(sched_g, id));
                    },
                    None => {},
                }
                assert forall|c: int| 0 <= c < sched_g[k].inputs@.len() implies attachment_ready(
                    #[trigger] sched_g[k].inputs@[c],
                    color_targets@,
                    ds_targets@,
                ) by {
                    match sched_g[k].inputs@[c] {
                        Attachment::Color(id) => {
                            assert(spec_used_color(passes0, id));
                            assert(spec_used_color(sched_g, id));
                        },
                        Attachment::DepthStencil(id) => {
                            assert(spec_used_ds(passes0, id));
                            assert(spec_used_ds(sched_g, id));
                        },
                    }
                }
            }
        }
        let ghost ct_g = color_targets@;
        let ghost dt_g = ds_targets@;
        // Resolve every scheduled pass into its node, deciding clears and
        // wait edges.
        let node_out = make_pass_nodes(
            sched,
            &deps,
            &colors,
            &depth_stencils,
            &mut color_targets,
            &mut ds_targets,
            present,
        );
        let nodes = node_out.0;
        let first = match node_out.1 {
            Some(f) => f,
            None => {
                proof {
                    assert(spec_used_color(passes0, present));
                    assert(spec_used_color(sched_g, present));
                    let k = choose|k: int|
                        0 <= k < sched_g.len() && (#[trigger] sched_g[k]).colors@.contains(present);
                    assert(!sched_g[k].colors@.contains(present));
                }
                vstd::pervasive::unreached()
            },
        };
        // One semaphore for every pass that a later pass waits on.
        let signals = plan_signals(&nodes, device);
        let graph = Graph {
            passes: nodes,
            signals,
            images,
            views,
            frames,
            first_draws_to_surface: first,
        };
        proof {
            assert(resolves_schedule(
                self.passes@,
                self.colors@,
                self.depth_stencils@,
                self.present.unwrap(),
                sched_g,
                deps@,
                ct_g,
                dt_g,
                graph.passes@,
                graph.first_draws_to_surface,
            ));
            crate::schedule::lemma_topo_no_cycle(passes0, sched_g);
        }
        Ok(graph)
    }
}

proof fn lemma_sched_color_writes_mono(sched: Seq<PassBuilder>, k1: int, k2: int, id: usize)
    requires
        0 <= k1 <= k2,
    ensures
        sched_color_writes(sched, k1, id) <= sched_color_writes(sched, k2, id),
    decreases k2 - k1,
{
    if k1 < k2 {
        lemma_sched_color_writes_mono(sched, k1, k2 - 1, id);
    }
}

proof fn lemma_sched_ds_writes_mono(sched: Seq<PassBuilder>, k1: int, k2: int, id: usize)
    requires
        0 <= k1 <= k2,
    ensures
        sched_ds_writes(sched, k1, id) <= sched_ds_writes(sched, k2, id),
    decreases k2 - k1,
{
    if k1 < k2 {
        lemma_sched_ds_writes_mono(sched, k1, k2 - 1, id);
    }
}

/// Of any two color slots that write the same attachment, the later one is
/// never the target's first writer: its write count over the preceding
/// passes and slots is positive.  Together with the resolution contract —
/// a descriptor carries the attachment's clear value exactly when that
/// count is zero — at most one resolved color descriptor per attachment
/// carries its clear value.
pub proof fn lemma_clear_applied_once(
    sched: Seq<PassBuilder>,
    k1: int,
    c1: int,
    k2: int,
    c2: int,
)
    requires
        0 <= k1 < sched.len(),
        0 <= c1 < sched[k1].colors@.len(),
        0 <= k2 < sched.len(),
        0 <= c2 < sched[k2].colors@.len(),
        sched[k1].colors@[c1] == sched[k2].colors@[c2],
        k1 < k2 || (k1 == k2 && c1 < c2),
    ensures
        sched_color_writes(sched, k2, sched[k2].colors@[c2]) + count_in_slots(
            sched[k2].colors@,
            c2,
            sched[k2].colors@[c2],
        ) > 0,
{
    let id = sched[k1].colors@[c1];
    if k1 == k2 {
        assert(count_in_slots(sched[k1].colors@, c1 + 1, id) == count_in_slots(
            sched[k1].colors@,
            c1,
            id,
        ) + 1);
        lemma_count_in_slots_mono(sched[k2].colors@, c1 + 1, c2, id);
    } else {
        assert(count_in_slots(sched[k1].colors@, c1 + 1, id) == count_in_slots(
            sched[k1].colors@,
            c1,
            id,
        ) + 1);
        lemma_count_in_slots_mono(sched[k1].colors@, c1 + 1, sched[k1].colors@.len() as int, id);
        assert(sched_color_writes(sched, k1 + 1, id) == sched_color_writes(sched, k1, id)
            + pass_color_writes(sched[k1], id));
        lemma_sched_color_writes_mono(sched, k1 + 1, k2, id);
    }
}

/// Of any two passes that write the same depth/stencil attachment, the
/// later one is never the target's first writer, so at most one resolved
/// depth/stencil descriptor per attachment carries its clear value.
pub proof fn lemma_ds_clear_applied_once(sched: Seq<PassBuilder>, k1: int, k2: int)
    requires
        0 <= k1 < k2 < sched.len(),
        sched[k1].depth_stencil is Some,
        sched[k1].depth_stencil == sched[k2].depth_stencil,
    ensures
        sched_ds_writes(sched, k2, sched[k2].depth_stencil.unwrap()) > 0,
{
    let id = sched[k1].depth_stencil.unwrap();
    assert(sched_ds_writes(sched, k1 + 1, id) == sched_ds_writes(sched, k1, id) + pass_ds_writes(
        sched[k1],
        id,
    ));
    lemma_sched_ds_writes_mono(sched, k1 + 1, k2, id);
}

} // verus!

//! Pass declarations and their resolved, order-fixed form.
//!
//! A [`PassBuilder`] describes one render pass declaratively: which
//! attachments it samples as inputs and which it writes as color or
//! depth/stencil outputs.  Building the graph turns each declaration into a
//! [`PassNode`]: concrete view descriptors with the clear decision already
//! made, plus at most one recorded dependency edge.

use vstd::prelude::*;
use crate::attachment::{Attachment, ClearColor, ClearDepthStencil, Format};

verus! {

/// Declaration of one render pass: its name (diagnostic only), the
/// attachments it reads, and the attachments it writes.
#[derive(Clone, Debug)]
pub struct PassBuilder {
    /// Diagnostic name; never used for scheduling decisions.
    pub name: String,
    /// Attachments sampled as inputs.  Each must be written by some pass
    /// of the same graph.
    pub inputs: Vec<Attachment>,
    /// Tokens of the color attachments written, in attachment-slot order.
    pub colors: Vec<usize>,
    /// Token of the depth/stencil attachment written, if any.
    pub depth_stencil: Option<usize>,
}

impl PassBuilder {
    /// Start a pass declaration with no attachments.
    pub fn new(name: String) -> (p: PassBuilder)
        ensures
            p.name == name,
            p.inputs@ =~= Seq::<Attachment>::empty(),
            p.colors@ =~= Seq::<usize>::empty(),
            p.depth_stencil is None,
    {
        PassBuilder { name, inputs: Vec::new(), colors: Vec::new(), depth_stencil: None }
    }

    /// Declare an input attachment.
    pub fn with_input(self, input: Attachment) -> (p: PassBuilder)
        ensures
            p.name == self.name,
            p.inputs@ == self.inputs@.push(input),
            p.colors@ == self.colors@,
            p.depth_stencil == self.depth_stencil,
    {
        let mut p = self;
        p.inputs.push(input);
        p
    }

    /// Declare a color output attachment by its registry token.
    pub fn with_color(self, color: usize) -> (p: PassBuilder)
        ensures
            p.name == self.name,
            p.inputs@ == self.inputs@,
            p.colors@ == self.colors@.push(color),
            p.depth_stencil == self.depth_stencil,
    {
        let mut p = self;
        p.colors.push(color);
        p
    }

    /// Declare the depth/stencil output attachment by its registry token.
    pub fn with_depth_stencil(self, depth_stencil: usize) -> (p: PassBuilder)
        ensures
            p.name == self.name,
            p.inputs@ == self.inputs@,
            p.colors@ == self.colors@,
            p.depth_stencil == Some(depth_stencil),
    {
        let mut p = self;
        p.depth_stencil = Some(depth_stencil);
        p
    }
}

/// A run of image-view indices in the shared view pool: the views backing
/// one target, one per frame in flight.
#[derive(Clone, Copy, Debug, PartialEq, Eq, Structural)]
pub struct ViewRange {
    pub start: usize,
    pub end: usize,
}

impl ViewRange {
    /// The empty run that stands for externally owned storage.
    pub open spec fn spec_is_external(self) -> bool {
        self.start == 0 && self.end == 0
    }
}

/// Where the views of a resolved attachment live: either a run of indices
/// into the graph's own view pool, or deferred to the presentation surface.
#[derive(Clone, Copy, Debug, PartialEq, Eq, Structural)]
pub enum AttachmentImageViews {
    /// Views owned by the graph.
    Owned(ViewRange),
    /// A single framebuffer owned by the presentation machinery.
    External,
}

/// The pipeline stage a dependent pass waits at.  The planner currently
/// always records the conservative top-of-pipe stage.
#[derive(Clone, Copy, Debug, PartialEq, Eq, Structural)]
pub enum PipelineStage {
    TopOfPipe,
}

/// Resolved input attachment: format plus the view run it is sampled from.
#[derive(Clone, Copy, Debug, PartialEq, Eq, Structural)]
pub struct InputAttachmentDesc {
    pub format: Format,
    pub view: ViewRange,
}

/// Resolved color attachment: format, backing views, and the clear value
/// this pass applies (only the first writer of a target clears it).
#[derive(Clone, Copy, Debug, PartialEq, Eq, Structural)]
pub struct ColorAttachmentDesc {
    pub format: Format,
    pub view: AttachmentImageViews,
    pub clear: Option<ClearColor>,
}

/// Resolved depth/stencil attachment.
#[derive(Clone, Copy, Debug, PartialEq, Eq, Structural)]
pub struct DepthStencilAttachmentDesc {
    pub format: Format,
    pub view: AttachmentImageViews,
    pub clear: Option<ClearDepthStencil>,
}

/// The resolved, order-fixed form of a pass declaration.
#[derive(Clone, Debug)]
pub struct PassNode {
    /// Diagnostic name carried over from the declaration.
    pub name: String,
    /// Resolved input descriptors, in declaration order.
    pub inputs: Vec<InputAttachmentDesc>,
    /// Resolved color descriptors, in declaration order.
    pub colors: Vec<ColorAttachmentDesc>,
    /// Resolved depth/stencil descriptor, if declared.
    pub depth_stencil: Option<DepthStencilAttachmentDesc>,
    /// The single wait edge of this pass: the scheduled index of the pass
    /// it waits for and the stage it waits at, if any.
    pub depends: Option<(usize, PipelineStage)>,
}

} // verus!

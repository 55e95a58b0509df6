//! Frame and framebuffer selection.
//!
//! The graph abstracts over two framebuffer arrangements: either it owns
//! one framebuffer per frame in flight, or the presentation machinery owns
//! a single framebuffer of its own.  [`pick`] resolves, for a given frame,
//! which concrete framebuffer a pass renders into.

use vstd::prelude::*;
use crate::graph::Backbuffer;

verus! {

/// One frame in flight, as the render loop sees it: either the index of
/// one of the graph's own framebuffers, or the single framebuffer owned by
/// the presentation machinery.
#[derive(Clone, Copy, Debug)]
pub enum SuperFrame<'a, F> {
    /// Index into the framebuffers the graph created.
    Index(usize),
    /// The single framebuffer associated with the presentation surface.
    Buffer(&'a F),
}

impl<'a, F> SuperFrame<'a, F> {
    /// Derive the frame from the backbuffer and the frame index: discrete
    /// backbuffer images select by index, a surface-owned framebuffer is
    /// used directly.
    pub fn new<Img>(backbuffer: &'a Backbuffer<Img, F>, frame: usize) -> (r: SuperFrame<'a, F>)
        ensures
            match *backbuffer {
                Backbuffer::Images(_) => r == SuperFrame::<'a, F>::Index(frame),
                Backbuffer::Framebuffer(ref single) => r == SuperFrame::<'a, F>::Buffer(single),
            },
    {
        match backbuffer {
            Backbuffer::Images(_) => SuperFrame::Index(frame),
            Backbuffer::Framebuffer(single) => SuperFrame::Buffer(single),
        }
    }

    /// The index of the frame; a surface-owned framebuffer has no index of
    /// its own and counts as frame zero.
    pub fn index(&self) -> (i: usize)
        ensures
            match *self {
                SuperFrame::Index(index) => i == index,
                SuperFrame::Buffer(_) => i == 0,
            },
    {
        match *self {
            SuperFrame::Index(index) => index,
            SuperFrame::Buffer(_) => 0,
        }
    }
}

/// The framebuffer arrangement of one render pass.
#[derive(Debug)]
pub enum SuperFramebuffer<F> {
    /// One framebuffer per frame in flight, owned by the graph.
    Owned(Vec<F>),
    /// The single framebuffer associated with the presentation surface.
    External,
}

/// The frame and framebuffer arrangement fit together: an indexed frame
/// addresses an owned framebuffer, and an external arrangement needs the
/// surface's own framebuffer.  Any other combination is a logic error.
pub open spec fn pick_compatible<F>(framebuffer: SuperFramebuffer<F>, frame: SuperFrame<F>) -> bool {
    match framebuffer {
        SuperFramebuffer::Owned(framebuffers) => (match frame {
            SuperFrame::Index(index) => index < framebuffers@.len(),
            SuperFrame::Buffer(_) => 0 < framebuffers@.len(),
        }),
        SuperFramebuffer::External => frame is Buffer,
    }
}

/// Pick the framebuffer the given frame renders into: an owned
/// arrangement is addressed by the frame index, an external arrangement
/// resolves to the surface's own framebuffer.
pub fn pick<'a, F>(framebuffer: &'a SuperFramebuffer<F>, frame: &SuperFrame<'a, F>) -> (r: &'a F)
    requires
        pick_compatible(*framebuffer, *frame),
    ensures
        match *framebuffer {
            SuperFramebuffer::Owned(framebuffers) => (match *frame {
                SuperFrame::Index(index) => r == &framebuffers@[index as int],
                SuperFrame::Buffer(_) => r == &framebuffers@[0],
            }),
            SuperFramebuffer::External => (match *frame {
                SuperFrame::Buffer(single) => r == single,
                SuperFrame::Index(_) => false,
            }),
        },
{
    match framebuffer {
        SuperFramebuffer::Owned(framebuffers) => &framebuffers[frame.index()],
        SuperFramebuffer::External => match frame {
            SuperFrame::Buffer(single) => single,
            SuperFrame::Index(_) => vstd::pervasive::unreached(),
        },
    }
}

} // verus!

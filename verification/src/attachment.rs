//! Attachment descriptions.
//!
//! An attachment is a logical render target — color or depth/stencil — with
//! a pixel format and an optional clear value.  Attachments are identified
//! by the token the registry in [`crate::graph::GraphBuilder`] hands out
//! when they are registered, never by comparing their descriptions: two
//! attachments with identical format and clear value are still distinct
//! resources.

use vstd::prelude::*;

verus! {

/// A pixel format token.  The graph never interprets the format beyond
/// copying it onto the resolved descriptors and the allocation requests,
/// so it is carried as an opaque code.
#[derive(Clone, Copy, Debug, PartialEq, Eq, Structural)]
pub struct Format(pub u32);

/// An RGBA clear color, each channel carried as the bit pattern of its
/// 32-bit floating point value.
#[derive(Clone, Copy, Debug, PartialEq, Eq, Structural)]
pub struct ClearColor {
    pub r_bits: u32,
    pub g_bits: u32,
    pub b_bits: u32,
    pub a_bits: u32,
}

/// A depth/stencil clear value: the depth as the bit pattern of its 32-bit
/// floating point value, and the stencil value itself.
#[derive(Clone, Copy, Debug, PartialEq, Eq, Structural)]
pub struct ClearDepthStencil {
    pub depth_bits: u32,
    pub stencil: u32,
}

/// Description of a color attachment.
#[derive(Clone, Copy, Debug)]
pub struct ColorAttachment {
    pub format: Format,
    pub clear: Option<ClearColor>,
}

/// Description of a depth/stencil attachment.
#[derive(Clone, Copy, Debug)]
pub struct DepthStencilAttachment {
    pub format: Format,
    pub clear: Option<ClearDepthStencil>,
}

/// Reference to a registered attachment: the registry token of either a
/// color or a depth/stencil attachment.
#[derive(Clone, Copy, Debug, PartialEq, Eq, Structural)]
pub enum Attachment {
    /// Token of a color attachment.
    Color(usize),
    /// Token of a depth/stencil attachment.
    DepthStencil(usize),
}

/// Dimensions used to size every newly allocated render target.
#[derive(Clone, Copy, Debug, PartialEq, Eq, Structural)]
pub struct Extent {
    pub width: u32,
    pub height: u32,
    pub depth: u32,
}

} // verus!

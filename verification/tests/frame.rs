use xfg::frame::{SuperFrame, SuperFramebuffer, pick};
use xfg::graph::Backbuffer;

#[test]
fn pick_owned_by_index() {
    let framebuffers: SuperFramebuffer<u32> = SuperFramebuffer::Owned(vec![10, 11, 12]);
    let frame: SuperFrame<u32> = SuperFrame::Index(1);
    assert_eq!(*pick(&framebuffers, &frame), 11);
}

#[test]
fn pick_external_uses_surface_framebuffer() {
    let framebuffers: SuperFramebuffer<u32> = SuperFramebuffer::External;
    let surface = 99u32;
    let frame: SuperFrame<u32> = SuperFrame::Buffer(&surface);
    assert_eq!(*pick(&framebuffers, &frame), 99);
}

#[test]
fn super_frame_from_backbuffer_images() {
    let backbuffer: Backbuffer<u32, u32> = Backbuffer::Images(vec![1, 2, 3]);
    let frame = SuperFrame::new(&backbuffer, 2);
    assert!(matches!(frame, SuperFrame::Index(2)));
    assert_eq!(frame.index(), 2);
}

#[test]
fn super_frame_from_single_framebuffer() {
    let backbuffer: Backbuffer<u32, u32> = Backbuffer::Framebuffer(7);
    let frame = SuperFrame::new(&backbuffer, 5);
    assert!(matches!(frame, SuperFrame::Buffer(_)));
    assert_eq!(frame.index(), 0);
}

use xfg::attachment::{Attachment, ClearColor, ClearDepthStencil, ColorAttachment, DepthStencilAttachment, Extent, Format};
use xfg::graph::{Backbuffer, GraphBuildError, GraphBuilder, ImageKind, ImageUsage, MemoryProperties, RenderDevice};
use xfg::pass::{AttachmentImageViews, PassBuilder, PipelineStage, ViewRange};

/// A device stub that records every call, for asserting what the build
/// asked of the device.
struct StubDevice {
    allocs: Vec<(ImageKind, u8, Format)>,
    views_created: usize,
    semaphores: usize,
    fail_alloc: bool,
    fail_view: bool,
}

impl StubDevice {
    fn new() -> StubDevice {
        StubDevice { allocs: Vec::new(), views_created: 0, semaphores: 0, fail_alloc: false, fail_view: false }
    }
}

impl RenderDevice<u64, u64, u64, &'static str> for StubDevice {
    fn allocate_image(
        &mut self,
        kind: ImageKind,
        mip_levels: u8,
        format: Format,
        _usage: ImageUsage,
        _properties: MemoryProperties,
    ) -> Result<u64, &'static str> {
        if self.fail_alloc {
            return Err("allocation refused");
        }
        self.allocs.push((kind, mip_levels, format));
        Ok(self.allocs.len() as u64)
    }

    fn create_image_view(&mut self, _image: &u64, _format: Format) -> Result<u64, &'static str> {
        if self.fail_view {
            return Err("view refused");
        }
        self.views_created += 1;
        Ok(self.views_created as u64)
    }

    fn create_semaphore(&mut self) -> u64 {
        self.semaphores += 1;
        self.semaphores as u64
    }
}

fn clear_red() -> ClearColor {
    ClearColor { r_bits: 1, g_bits: 2, b_bits: 3, a_bits: 4 }
}

fn extent() -> Extent {
    Extent { width: 800, height: 600, depth: 1 }
}

#[test]
fn missing_present_fails_before_any_allocation() {
    let backbuffer: Backbuffer<u64, u64> = Backbuffer::Images(vec![1, 2]);
    let mut device = StubDevice::new();
    let mut builder: GraphBuilder<u64, u64> = GraphBuilder::new();
    builder.set_backbuffer(&backbuffer);
    builder.set_extent(extent());
    let result = builder.build(&mut device);
    assert!(matches!(result, Err(GraphBuildError::MissingPresentAttachment)));
    assert_eq!(device.allocs.len(), 0);
    assert_eq!(device.views_created, 0);
}

#[test]
fn missing_backbuffer_fails_before_any_allocation() {
    let mut device = StubDevice::new();
    let mut builder: GraphBuilder<u64, u64> = GraphBuilder::new();
    let present = builder.register_color(ColorAttachment { format: Format(1), clear: None });
    builder.add_pass(PassBuilder::new("draw".to_string()).with_color(present));
    builder.set_present(present);
    builder.set_extent(extent());
    let result = builder.build(&mut device);
    assert!(matches!(result, Err(GraphBuildError::MissingBackbuffer)));
    assert_eq!(device.allocs.len(), 0);
    assert_eq!(device.views_created, 0);
}

#[test]
fn two_pass_cycle_is_reported_not_scheduled() {
    let backbuffer: Backbuffer<u64, u64> = Backbuffer::Images(vec![1]);
    let mut device = StubDevice::new();
    let mut builder: GraphBuilder<u64, u64> = GraphBuilder::new();
    let first = builder.register_color(ColorAttachment { format: Format(1), clear: None });
    let second = builder.register_color(ColorAttachment { format: Format(2), clear: None });
    builder.add_pass(
        PassBuilder::new("a".to_string()).with_input(Attachment::Color(second)).with_color(first),
    );
    builder.add_pass(
        PassBuilder::new("b".to_string()).with_input(Attachment::Color(first)).with_color(second),
    );
    builder.set_present(first);
    builder.set_backbuffer(&backbuffer);
    builder.set_extent(extent());
    let result = builder.build(&mut device);
    assert!(matches!(result, Err(GraphBuildError::CircularDependency)));
    assert_eq!(device.allocs.len(), 0);
}

#[test]
fn worked_example_two_writers_of_the_presentation_attachment() {
    let backbuffer: Backbuffer<u64, u64> = Backbuffer::Images(vec![1, 2]);
    let mut device = StubDevice::new();
    let mut builder: GraphBuilder<u64, u64> = GraphBuilder::new();
    let present = builder.register_color(
        ColorAttachment { format: Format(1), clear: Some(clear_red()) },
    );
    builder.add_pass(PassBuilder::new("pass1".to_string()).with_color(present));
    builder.add_pass(PassBuilder::new("pass2".to_string()).with_color(present));
    builder.set_present(present);
    builder.set_backbuffer(&backbuffer);
    builder.set_extent(extent());
    let graph = builder.build(&mut device).expect("the example builds");

    // Order: pass1 first (no dependencies), pass2 after its sibling.
    assert_eq!(graph.passes.len(), 2);
    assert_eq!(graph.passes[0].name, "pass1");
    assert_eq!(graph.passes[1].name, "pass2");
    // Only the first writer applies the configured clear.
    assert_eq!(graph.passes[0].colors[0].clear, Some(clear_red()));
    assert_eq!(graph.passes[1].colors[0].clear, None);
    // Both render to the reused backbuffer views; nothing was allocated.
    assert_eq!(device.allocs.len(), 0);
    assert_eq!(graph.images.len(), 0);
    assert_eq!(graph.views.len(), 2);
    assert_eq!(graph.frames, 2);
    assert_eq!(graph.first_draws_to_surface, 0);
    assert_eq!(
        graph.passes[0].colors[0].view,
        AttachmentImageViews::Owned(ViewRange { start: 0, end: 2 }),
    );
    // The sibling constraint is recorded as pass2's wait edge, so pass1
    // signals a semaphore.
    assert_eq!(graph.passes[0].depends, None);
    assert_eq!(graph.passes[1].depends, Some((0, PipelineStage::TopOfPipe)));
    assert!(graph.signals[0].is_some());
    assert!(graph.signals[1].is_none());
}

#[test]
fn target_sizing_one_pair_per_frame() {
    let backbuffer: Backbuffer<u64, u64> = Backbuffer::Images(vec![1, 2, 3]);
    let mut device = StubDevice::new();
    let mut builder: GraphBuilder<u64, u64> = GraphBuilder::new();
    let present = builder.register_color(ColorAttachment { format: Format(1), clear: None });
    let offscreen = builder.register_color(
        ColorAttachment { format: Format(7), clear: Some(clear_red()) },
    );
    let depth = builder.register_depth_stencil(DepthStencilAttachment {
        format: Format(8),
        clear: Some(ClearDepthStencil { depth_bits: 5, stencil: 6 }),
    });
    builder.add_pass(
        PassBuilder::new("draw".to_string())
            .with_color(present)
            .with_color(offscreen)
            .with_depth_stencil(depth),
    );
    builder.set_present(present);
    builder.set_backbuffer(&backbuffer);
    builder.set_extent(extent());
    let graph = builder.build(&mut device).expect("the graph builds");

    // Three frames in flight: exactly three image/view pairs per new
    // target, sized to the extent, with the registered formats.
    assert_eq!(device.allocs.len(), 6);
    for (kind, mip_levels, _) in &device.allocs {
        assert_eq!(kind.width, 800);
        assert_eq!(kind.height, 600);
        assert_eq!(*mip_levels, 1);
    }
    assert_eq!(device.allocs[0].2, Format(7));
    assert_eq!(device.allocs[1].2, Format(7));
    assert_eq!(device.allocs[2].2, Format(7));
    assert_eq!(device.allocs[3].2, Format(8));
    assert_eq!(device.allocs[4].2, Format(8));
    assert_eq!(device.allocs[5].2, Format(8));
    assert_eq!(graph.images.len(), 6);
    // Pool: three backbuffer views, then three per allocated target.
    assert_eq!(graph.views.len(), 9);
    let node = &graph.passes[0];
    assert_eq!(node.colors[0].view, AttachmentImageViews::Owned(ViewRange { start: 0, end: 3 }));
    assert_eq!(node.colors[1].view, AttachmentImageViews::Owned(ViewRange { start: 3, end: 6 }));
    let ds = node.depth_stencil.as_ref().expect("depth target resolved");
    assert_eq!(ds.view, AttachmentImageViews::Owned(ViewRange { start: 6, end: 9 }));
    assert_eq!(ds.format, Format(8));
    assert_eq!(ds.clear, Some(ClearDepthStencil { depth_bits: 5, stencil: 6 }));
    assert_eq!(node.colors[1].clear, Some(clear_red()));
}

#[test]
fn three_pass_chain_allocates_exactly_two_semaphores() {
    let backbuffer: Backbuffer<u64, u64> = Backbuffer::Images(vec![1]);
    let mut device = StubDevice::new();
    let mut builder: GraphBuilder<u64, u64> = GraphBuilder::new();
    let a_out = builder.register_color(ColorAttachment { format: Format(1), clear: None });
    let b_out = builder.register_color(ColorAttachment { format: Format(2), clear: None });
    let c_out = builder.register_color(ColorAttachment { format: Format(3), clear: None });
    builder.add_pass(PassBuilder::new("a".to_string()).with_color(a_out));
    builder.add_pass(
        PassBuilder::new("b".to_string()).with_input(Attachment::Color(a_out)).with_color(b_out),
    );
    builder.add_pass(
        PassBuilder::new("c".to_string()).with_input(Attachment::Color(b_out)).with_color(c_out),
    );
    builder.set_present(c_out);
    builder.set_backbuffer(&backbuffer);
    builder.set_extent(extent());
    let graph = builder.build(&mut device).expect("the chain builds");

    assert_eq!(graph.passes[0].name, "a");
    assert_eq!(graph.passes[1].name, "b");
    assert_eq!(graph.passes[2].name, "c");
    // B waits on A's position, C on B's, A on nothing.
    assert_eq!(graph.passes[0].depends, None);
    assert_eq!(graph.passes[1].depends, Some((0, PipelineStage::TopOfPipe)));
    assert_eq!(graph.passes[2].depends, Some((1, PipelineStage::TopOfPipe)));
    // Exactly two semaphores: for A and for B.
    assert!(graph.signals[0].is_some());
    assert!(graph.signals[1].is_some());
    assert!(graph.signals[2].is_none());
    assert_eq!(device.semaphores, 2);
    assert_eq!(graph.first_draws_to_surface, 2);
}

#[test]
fn single_framebuffer_backbuffer_renders_externally() {
    let backbuffer: Backbuffer<u64, u64> = Backbuffer::Framebuffer(42);
    let mut device = StubDevice::new();
    let mut builder: GraphBuilder<u64, u64> = GraphBuilder::new();
    let present = builder.register_color(
        ColorAttachment { format: Format(1), clear: Some(clear_red()) },
    );
    builder.add_pass(PassBuilder::new("draw".to_string()).with_color(present));
    builder.set_present(present);
    builder.set_backbuffer(&backbuffer);
    builder.set_extent(extent());
    let graph = builder.build(&mut device).expect("the graph builds");

    assert_eq!(graph.frames, 1);
    assert_eq!(graph.views.len(), 0);
    assert_eq!(device.allocs.len(), 0);
    // The presentation target is externally owned.
    assert_eq!(graph.passes[0].colors[0].view, AttachmentImageViews::External);
    assert_eq!(graph.passes[0].colors[0].clear, Some(clear_red()));
}

#[test]
fn failed_allocation_aborts_the_build() {
    let backbuffer: Backbuffer<u64, u64> = Backbuffer::Images(vec![1]);
    let mut device = StubDevice::new();
    device.fail_alloc = true;
    let mut builder: GraphBuilder<u64, u64> = GraphBuilder::new();
    let present = builder.register_color(ColorAttachment { format: Format(1), clear: None });
    let offscreen = builder.register_color(ColorAttachment { format: Format(2), clear: None });
    builder.add_pass(
        PassBuilder::new("draw".to_string()).with_color(present).with_color(offscreen),
    );
    builder.set_present(present);
    builder.set_backbuffer(&backbuffer);
    builder.set_extent(extent());
    let result = builder.build(&mut device);
    assert!(matches!(result, Err(GraphBuildError::TargetAllocationFailed("allocation refused"))));
}

#[test]
fn failed_view_creation_aborts_the_build() {
    let backbuffer: Backbuffer<u64, u64> = Backbuffer::Images(vec![1]);
    let mut device = StubDevice::new();
    device.fail_view = true;
    let mut builder: GraphBuilder<u64, u64> = GraphBuilder::new();
    let present = builder.register_color(ColorAttachment { format: Format(1), clear: None });
    builder.add_pass(PassBuilder::new("draw".to_string()).with_color(present));
    builder.set_present(present);
    builder.set_backbuffer(&backbuffer);
    builder.set_extent(extent());
    let result = builder.build(&mut device);
    assert!(matches!(result, Err(GraphBuildError::ImageViewCreationFailed("view refused"))));
}

#[test]
fn input_views_point_at_the_producing_target() {
    let backbuffer: Backbuffer<u64, u64> = Backbuffer::Images(vec![1, 2]);
    let mut device = StubDevice::new();
    let mut builder: GraphBuilder<u64, u64> = GraphBuilder::new();
    let present = builder.register_color(ColorAttachment { format: Format(1), clear: None });
    let offscreen = builder.register_color(ColorAttachment { format: Format(9), clear: None });
    builder.add_pass(PassBuilder::new("scene".to_string()).with_color(offscreen));
    builder.add_pass(
        PassBuilder::new("post".to_string())
            .with_input(Attachment::Color(offscreen))
            .with_color(present),
    );
    builder.set_present(present);
    builder.set_backbuffer(&backbuffer);
    builder.set_extent(extent());
    let graph = builder.build(&mut device).expect("the graph builds");

    assert_eq!(graph.passes[0].name, "scene");
    assert_eq!(graph.passes[1].name, "post");
    // The post pass samples the offscreen target allocated after the two
    // backbuffer views.
    assert_eq!(graph.passes[1].inputs[0].format, Format(9));
    assert_eq!(graph.passes[1].inputs[0].view, ViewRange { start: 2, end: 4 });
    assert_eq!(graph.first_draws_to_surface, 1);
}

#[test]
fn builder_value_style_matches_setter_style() {
    let backbuffer: Backbuffer<u64, u64> = Backbuffer::Images(vec![1]);
    let mut device = StubDevice::new();
    let mut builder: GraphBuilder<u64, u64> = GraphBuilder::new();
    let present = builder.register_color(ColorAttachment { format: Format(1), clear: None });
    let builder = builder
        .with_pass(PassBuilder::new("draw".to_string()).with_color(present))
        .with_present(present)
        .with_backbuffer(&backbuffer)
        .with_extent(extent());
    let graph = builder.build(&mut device).expect("the graph builds");
    assert_eq!(graph.passes.len(), 1);
    assert_eq!(graph.frames, 1);
}

#[test]
fn shared_predecessor_edge_is_recorded_once() {
    let backbuffer: Backbuffer<u64, u64> = Backbuffer::Images(vec![1]);
    let mut device = StubDevice::new();
    let mut builder: GraphBuilder<u64, u64> = GraphBuilder::new();
    let shared = builder.register_color(ColorAttachment { format: Format(1), clear: None });
    let left = builder.register_color(ColorAttachment { format: Format(2), clear: None });
    let present = builder.register_color(ColorAttachment { format: Format(3), clear: None });
    builder.add_pass(PassBuilder::new("producer".to_string()).with_color(shared));
    builder.add_pass(
        PassBuilder::new("left".to_string()).with_input(Attachment::Color(shared)).with_color(left),
    );
    builder.add_pass(
        PassBuilder::new("right".to_string())
            .with_input(Attachment::Color(shared))
            .with_color(present),
    );
    builder.set_present(present);
    builder.set_backbuffer(&backbuffer);
    builder.set_extent(extent());
    let graph = builder.build(&mut device).expect("the graph builds");

    // Both consumers compute the producer as their last dependency, but
    // only the first keeps the wait edge; the producer signals once.
    assert_eq!(graph.passes[0].name, "producer");
    assert_eq!(graph.passes[1].depends, Some((0, PipelineStage::TopOfPipe)));
    assert_eq!(graph.passes[2].depends, None);
    assert!(graph.signals[0].is_some());
    assert!(graph.signals[1].is_none());
    assert!(graph.signals[2].is_none());
    assert_eq!(device.semaphores, 1);
}

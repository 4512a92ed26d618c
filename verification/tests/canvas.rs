//! Presenting a canvas: pipelines, frames and their buffers.
use browser_core::canvas::present::{
    drains_on, ImageHandler, ImageSource, LockStep, Shared, MAX_DRAINED,
};
use browser_core::canvas::source_cache::{
    SourceImage, SourceImageCache, SOURCE_CACHE_MAX_BYTES, SOURCE_CACHE_MAX_ENTRIES,
};
use browser_core::canvas::styles::{
    composite_blend, dash_intervals, fill_type, glyph_positions, gradient_stops,
    is_opaque_full_fill, layer_for, line_cap, line_join, needs_layer, sampling_for, tile_mode,
    BlendMode, BlendingStyle, CompositionOrBlending, CompositionStyle, FillRule, FillType, Filter,
    FilterMode, Layer, LineCap, LineCapStyle, LineJoin, LineJoinStyle, TileMode,
};
use browser_core::canvas::target::{
    resolve_window, CanvasThread, DrawTarget, FrameStart, ParkedPipeline, PresentPlan, PresentRing,
    RingBuffer, Teardown, ZeroCopy, PIPELINE_POOL_MAX,
};

fn image(key: u64, bytes: usize, image: u64) -> SourceImage {
    SourceImage {
        key,
        width: 4,
        height: 4,
        bytes,
        image,
    }
}

#[test]
fn source_images_are_found_again() {
    let mut cache = SourceImageCache::new();
    assert!(cache.insert(image(1, 64, 10)).is_empty());
    assert_eq!(cache.find(1, 4, 4), Some(10));
    assert_eq!(cache.find(1, 4, 5), None);
    assert_eq!(cache.find(2, 4, 4), None);
}

#[test]
fn source_images_are_bounded() {
    let mut cache = SourceImageCache::new();
    for key in 0..SOURCE_CACHE_MAX_ENTRIES as u64 {
        assert!(cache.insert(image(key, 1, 100 + key)).is_empty());
    }
    // A use moves an image behind the others.
    assert_eq!(cache.find(0, 4, 4), Some(100));
    assert_eq!(cache.insert(image(99, 1, 7)), [101]);
    assert_eq!(cache.find(1, 4, 4), None);
    let mut cache = SourceImageCache::new();
    cache.insert(image(1, SOURCE_CACHE_MAX_BYTES - 1, 1));
    assert_eq!(cache.insert(image(2, 2, 2)), [1]);
}

#[test]
fn a_pipeline_counts_its_buffers() {
    let mut shared = Shared::new();
    shared.pipeline_counters(9);
    shared.on_frame_available(9);
    shared.on_frame_available(9);
    assert_eq!(shared.in_flight(9), 2);
    assert_eq!(shared.in_flight(8), 0);
    let slot = shared.register_slot(1, 20, 10);
    assert_eq!(shared.lookup_slot(1), Some(slot));
    assert_eq!(shared.slot(slot).unwrap().window, 0);
    shared.publish_window(slot, 9);
    assert_eq!(shared.slot(slot).unwrap().window, 9);
    shared.mark_dead(slot);
    assert!(shared.slot(slot).unwrap().dead);
    assert!(shared.lookup_slot(2).is_none());
    assert!(shared.can_register());
}

#[test]
fn an_image_is_created_drained_and_shown() {
    let mut shared = Shared::new();
    let mut handler = ImageHandler::new();
    assert_eq!(handler.lock(&mut shared, 1).0, LockStep::Invalid);
    assert!(handler.unlock(&mut shared).is_empty());
    let slot = shared.register_slot(1, 20, 10);
    assert!(handler.can_lock());
    assert_eq!(
        handler.lock(&mut shared, 1).0,
        LockStep::Create(slot, 20, 10)
    );
    handler.created(&mut shared, slot, 9, 5, 20, 10);
    handler.unlock(&mut shared);
    assert_eq!(shared.slot(slot).unwrap().window, 9);

    assert_eq!(handler.lock(&mut shared, 1).0, LockStep::Drain(9));
    assert_eq!(handler.drained(&mut shared, 9, 0), ImageSource::Invalid);
    handler.unlock(&mut shared);

    shared.on_frame_available(9);
    assert_eq!(handler.lock(&mut shared, 1).0, LockStep::Drain(9));
    assert_eq!(
        handler.drained(&mut shared, 9, 1),
        ImageSource::NativeTexture(5, 20, 10)
    );
    assert_eq!(shared.in_flight(9), 0);
    handler.unlock(&mut shared);
    assert_eq!(MAX_DRAINED, 8);
    assert!(drains_on(7, false));
    assert!(!drains_on(7, true));
    assert!(!drains_on(8, false));
}

#[test]
fn a_retired_pipeline_is_torn_down_once_nothing_is_locked() {
    let mut shared = Shared::new();
    let mut handler = ImageHandler::new();
    let slot = shared.register_slot(1, 20, 10);
    handler.lock(&mut shared, 1);
    handler.created(&mut shared, slot, 9, 5, 20, 10);
    shared.mark_dead(slot);
    shared.retire_window(9);
    assert_eq!(handler.unlock(&mut shared), [5]);
    assert!(handler.unlock(&mut shared).is_empty());
    assert_eq!(shared.lookup_slot(1), None);
    assert_eq!(shared.slot(slot), None);
}

#[test]
fn a_canvas_that_was_replaced_dies_alone() {
    let mut shared = Shared::new();
    let mut handler = ImageHandler::new();
    let mut thread = CanvasThread::new();
    let mut first = DrawTarget::new(20, 10, true);
    first.set_external_image_id(1, &mut shared);
    let mut second = DrawTarget::new(30, 10, true);
    second.set_external_image_id(1, &mut shared);
    let (old, new) = (
        first.present.unwrap().slot.unwrap(),
        second.present.unwrap().slot.unwrap(),
    );
    assert_ne!(old, new);
    assert_eq!(shared.lookup_slot(1), Some(new));
    shared.publish_window(new, 9);
    assert_eq!(resolve_window(&first.present.unwrap(), &shared), 0);
    assert_eq!(resolve_window(&second.present.unwrap(), &shared), 9);
    // The first one has no pipeline of its own, and leaves that of the second alone.
    assert_eq!(first.close(&mut thread, &mut shared), None);
    assert!(shared.slot(old).unwrap().dead);
    assert!(!shared.slot(new).unwrap().dead);
    handler.unlock(&mut shared);
    assert_eq!(shared.slot(old), None);
    assert_eq!(shared.lookup_slot(1), Some(new));
    assert_eq!(
        second.close(&mut thread, &mut shared),
        Some(Teardown {
            onscreen: None,
            window: 9
        })
    );
}

fn attached_target(shared: &mut Shared) -> DrawTarget {
    let mut target = DrawTarget::new(20, 10, true);
    target.set_external_image_id(1, shared);
    let slot = shared.lookup_slot(1).unwrap();
    shared.publish_window(slot, 9);
    target
}

#[test]
fn the_first_frames_are_read_back() {
    let mut shared = Shared::new();
    let mut thread = CanvasThread::new();
    let mut target = attached_target(&mut shared);
    assert_eq!(
        target.begin_frame_op(true, &mut thread, &shared),
        FrameStart::Nothing
    );
    assert_eq!(
        target.present_external(&thread, &shared),
        PresentPlan::Readback
    );
    target.end_frame();
    assert_eq!(
        target.begin_frame_op(true, &mut thread, &shared),
        FrameStart::CreateSurface(9)
    );
    target.surface_created(Some(3));
    assert_eq!(
        target.present_external(&thread, &shared),
        PresentPlan::Flush(3)
    );
    assert!(target.flushed(&mut thread, true, 5));
    target.end_frame();
}

#[test]
fn an_incremental_frame_is_read_back() {
    let mut shared = Shared::new();
    let mut thread = CanvasThread::new();
    let mut target = attached_target(&mut shared);
    for _ in 0..5 {
        target.begin_frame_op(false, &mut thread, &shared);
        assert_eq!(
            target.present_external(&thread, &shared),
            PresentPlan::Readback
        );
        target.end_frame();
    }
}

#[test]
fn a_slow_flush_blacklists_the_size() {
    let mut shared = Shared::new();
    let mut thread = CanvasThread::new();
    let target = attached_target(&mut shared);
    assert!(!thread.size_blacklisted(20, 10));
    target.flushed(&mut thread, true, 5_000);
    assert!(thread.size_blacklisted(20, 10));
    assert!(!thread.size_blacklisted(10, 20));
}

#[test]
fn parked_pipelines_are_adopted() {
    let parked = |onscreen| ParkedPipeline {
        width: 20,
        height: 10,
        onscreen,
        window: 100 + onscreen,
    };
    let mut thread = CanvasThread::new();
    assert_eq!(thread.pool_take(20, 10), None);
    for onscreen in 0..PIPELINE_POOL_MAX as u64 {
        assert_eq!(thread.pool_park(parked(onscreen)), None);
    }
    assert_eq!(
        thread.pool_park(parked(7)),
        Some(Teardown {
            onscreen: Some(0),
            window: 100
        })
    );
    assert_eq!(thread.pool_take(10, 20), None);
    assert!(thread.pool_take(20, 10).is_some());
}

#[test]
fn windows_are_resolved_through_the_slot() {
    let mut shared = Shared::new();
    let slot = shared.register_slot(1, 20, 10);
    let zero_copy = ZeroCopy {
        slot: Some(slot),
        onscreen: None,
        window: 0,
    };
    assert_eq!(resolve_window(&zero_copy, &shared), 0);
    shared.publish_window(slot, 9);
    assert_eq!(resolve_window(&zero_copy, &shared), 9);
}

#[test]
fn buffers_are_reused_once_released() {
    let mut ring = PresentRing::new();
    assert_eq!(ring.reclaim(&vec![], 800), None);
    assert_eq!(ring.keep(RingBuffer { id: 1, len: 800 }), None);
    assert_eq!(ring.reclaim(&vec![], 800), None);
    assert_eq!(ring.reclaim(&vec![1], 800), Some(1));
}

#[test]
fn styles_map_to_modes() {
    let composition = CompositionOrBlending::Composition;
    assert_eq!(
        composite_blend(composition(CompositionStyle::SourceOver)),
        BlendMode::SrcOver
    );
    assert_eq!(
        composite_blend(composition(CompositionStyle::Lighter)),
        BlendMode::Plus
    );
    assert_eq!(
        composite_blend(CompositionOrBlending::Blending(BlendingStyle::Multiply)),
        BlendMode::Multiply
    );
    assert!(!needs_layer(composition(CompositionStyle::SourceOver)));
    assert!(needs_layer(composition(CompositionStyle::SourceIn)));
    assert_eq!(line_cap(LineCapStyle::Butt), LineCap::Flat);
    assert_eq!(line_join(LineJoinStyle::Bevel), LineJoin::Bevel);
    assert_eq!(fill_type(FillRule::Evenodd), FillType::EvenOdd);
    assert_eq!(sampling_for(Filter::Bilinear), FilterMode::Linear);
    assert_eq!(tile_mode(true), TileMode::Repeat);
    assert_eq!(
        layer_for(composition(CompositionStyle::SourceOver), true),
        None
    );
    assert_eq!(
        layer_for(composition(CompositionStyle::SourceIn), true),
        Some(Layer {
            blend: Some(BlendMode::SrcIn),
            translucent: false
        })
    );
    assert!(is_opaque_full_fill(
        composition(CompositionStyle::SourceOver),
        true,
        true,
        true
    ));
    assert!(!is_opaque_full_fill(
        composition(CompositionStyle::SourceOver),
        true,
        false,
        true
    ));
}

#[test]
fn lists_are_laid_out_for_drawing() {
    assert_eq!(dash_intervals::<f32>(&vec![]), None);
    assert_eq!(dash_intervals(&vec![1.0, 2.0]), Some(vec![1.0, 2.0]));
    assert_eq!(
        dash_intervals(&vec![1.0, 2.0, 3.0]),
        Some(vec![1.0, 2.0, 3.0, 1.0, 2.0, 3.0])
    );
    assert_eq!(
        gradient_stops(&vec![(1u32, 0.0), (2u32, 1.0)]),
        (vec![1, 2], vec![0.0, 1.0])
    );
    assert_eq!(
        glyph_positions(&vec![(1.0, 2.0), (3.0, 4.0)]),
        vec![1.0, 2.0, 3.0, 4.0]
    );
}

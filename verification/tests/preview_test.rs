use marko::preview::{
    build_link_regions, layout_width, render_halfblock_image, url_at, Backend, Bitmap, CellPaint,
    ClickableLink, DecodedImage, Dimensions, ImagePipeline, ImagePlan, PreviewState, Rect,
    ResizeFilter, Rgb,
};
use marko::app_state::PreviewCommand;
use marko::renderer::ImageInfo;
use marko::style::{Modifier, Style};
use marko::theme;

fn image(url: &str, start_line: usize) -> ImageInfo {
    ImageInfo { url: url.to_string(), start_line, line_count: 15 }
}

fn area() -> Rect {
    Rect::new(0, 2, 80, 20)
}

fn size(width: u32, height: u32) -> Option<Dimensions> {
    Some(Dimensions { width, height })
}

#[test]
fn first_reference_schedules_one_decode_then_the_bitmap_shows() {
    let mut p = ImagePipeline::new(false);
    let info = image("pic.png", 0);
    p.begin_frame(area());
    assert!(p.needs_resolution(&info, 0, area()));
    let plan = p.place_image(&info, 0, area(), Some("/doc/pic.png".to_string()));
    assert!(matches!(plan, ImagePlan::Decode(ref path) if path == "/doc/pic.png"));
    // referenced again before the decode completes: no second dispatch
    assert!(!p.needs_resolution(&info, 0, area()));
    let again = p.place_image(&info, 0, area(), None);
    assert!(matches!(again, ImagePlan::Pending));
    p.end_frame();

    p.deliver("/doc/pic.png", size(100, 50), None);
    p.begin_frame(area());
    let plan = p.place_image(&info, 0, area(), None);
    match plan {
        ImagePlan::Ready(work) => {
            assert_eq!(work.path, "/doc/pic.png");
            let resize = work.resize.unwrap();
            assert_eq!((resize.width, resize.height), (79, 30));
            assert_eq!(resize.filter, ResizeFilter::Lanczos3);
            let job = work.job.unwrap();
            assert_eq!(job.rect, Rect { x: 0, y: 2, width: 79, height: 15 });
            assert_eq!(job.y_offset, 0);
            assert_eq!(job.full_cols, 79);
            assert_eq!(job.backend, Backend::HalfBlock { draw: true });
        }
        other => panic!("expected a drawing job, got {:?}", other),
    }
    // the next frame at the same size resizes nothing
    p.end_frame();
    p.begin_frame(area());
    match p.place_image(&info, 0, area(), None) {
        ImagePlan::Ready(work) => assert!(work.resize.is_none()),
        other => panic!("expected a drawing job, got {:?}", other),
    }
}

#[test]
fn failed_resolution_is_retried_on_every_reference() {
    let mut p = ImagePipeline::new(false);
    let info = image("missing.png", 0);
    assert!(matches!(p.place_image(&info, 0, area(), None), ImagePlan::Unresolved));
    assert!(p.needs_resolution(&info, 0, area()));
    assert!(matches!(p.place_image(&info, 0, area(), None), ImagePlan::Unresolved));
}

#[test]
fn image_outside_the_viewport_is_hidden() {
    let mut p = ImagePipeline::new(false);
    let below = image("a.png", 20);
    assert!(matches!(p.place_image(&below, 0, area(), Some("a".to_string())), ImagePlan::Hidden));
    assert!(!p.needs_resolution(&below, 0, area()));
    let above = image("a.png", 0);
    assert!(matches!(p.place_image(&above, 15, area(), Some("a".to_string())), ImagePlan::Hidden));
    assert!(!matches!(p.place_image(&above, 14, area(), Some("a".to_string())), ImagePlan::Hidden));
}

#[test]
fn decode_failure_is_kept_for_good() {
    let mut p = ImagePipeline::new(false);
    let info = image("bad.png", 0);
    assert!(matches!(
        p.place_image(&info, 0, area(), Some("bad".to_string())),
        ImagePlan::Decode(_)
    ));
    p.deliver("bad", None, None);
    for _ in 0..2 {
        match p.place_image(&info, 0, area(), None) {
            ImagePlan::Ready(work) => {
                assert_eq!(work.path, "bad");
                assert!(work.resize.is_none());
                assert!(work.job.is_none());
            }
            other => panic!("expected no decode and no job, got {:?}", other),
        }
    }
}

#[test]
fn large_bitmaps_are_scaled_with_the_cheap_filter() {
    let mut p = ImagePipeline::new(false);
    let info = image("big.png", 0);
    p.place_image(&info, 0, area(), Some("big".to_string()));
    p.deliver("big", size(2000, 1001), None);
    match p.place_image(&info, 0, area(), None) {
        ImagePlan::Ready(work) => assert_eq!(work.resize.unwrap().filter, ResizeFilter::Triangle),
        other => panic!("unexpected {:?}", other),
    }
    let mut q = ImagePipeline::new(false);
    q.place_image(&info, 0, area(), Some("big".to_string()));
    q.deliver("big", size(2000, 1000), None);
    match q.place_image(&info, 0, area(), None) {
        ImagePlan::Ready(work) => assert_eq!(work.resize.unwrap().filter, ResizeFilter::Lanczos3),
        other => panic!("unexpected {:?}", other),
    }
}

#[test]
fn resize_is_redone_when_the_target_size_changes() {
    let mut p = ImagePipeline::new(false);
    let info = image("a.png", 0);
    p.place_image(&info, 0, area(), Some("a".to_string()));
    p.deliver("a", size(10, 10), None);
    assert!(matches!(p.place_image(&info, 0, area(), None), ImagePlan::Ready(w) if w.resize.is_some()));
    assert!(matches!(p.place_image(&info, 0, area(), None), ImagePlan::Ready(w) if w.resize.is_none()));
    let wider = Rect::new(0, 2, 100, 20);
    match p.place_image(&info, 0, wider, None) {
        ImagePlan::Ready(work) => assert_eq!(work.resize.unwrap().width, 99),
        other => panic!("unexpected {:?}", other),
    }
}

#[test]
fn image_cut_off_at_the_top_gets_a_row_offset() {
    let mut p = ImagePipeline::new(false);
    let info = image("a.png", 3);
    p.place_image(&info, 5, area(), Some("a".to_string()));
    p.deliver("a", size(10, 10), None);
    match p.place_image(&info, 5, area(), None) {
        ImagePlan::Ready(work) => {
            let job = work.job.unwrap();
            assert_eq!(job.y_offset, 2);
            assert_eq!(job.rect, Rect { x: 0, y: 2, width: 79, height: 13 });
        }
        other => panic!("unexpected {:?}", other),
    }
}

#[test]
fn image_cut_off_at_the_bottom_is_clipped() {
    let mut p = ImagePipeline::new(false);
    let info = image("a.png", 10);
    p.place_image(&info, 0, area(), Some("a".to_string()));
    p.deliver("a", size(10, 10), None);
    match p.place_image(&info, 0, area(), None) {
        ImagePlan::Ready(work) => {
            let job = work.job.unwrap();
            assert_eq!(job.y_offset, 0);
            assert_eq!(job.rect, Rect { x: 0, y: 12, width: 79, height: 10 });
        }
        other => panic!("unexpected {:?}", other),
    }
}

#[test]
fn protocol_is_used_when_the_top_is_in_view_and_blank_when_it_is_not() {
    let mut p = ImagePipeline::new(true);
    let info = image("a.png", 3);
    p.begin_frame(area());
    p.place_image(&info, 0, area(), Some("a".to_string()));
    p.deliver("a", size(10, 10), None);
    match p.place_image(&info, 0, area(), None) {
        ImagePlan::Ready(work) => {
            assert_eq!(work.job.unwrap().backend, Backend::Protocol { create: true, draw: true });
        }
        other => panic!("unexpected {:?}", other),
    }
    assert!(p.end_frame().is_empty());
    // the resource is there now
    p.begin_frame(area());
    match p.place_image(&info, 0, area(), None) {
        ImagePlan::Ready(work) => {
            assert_eq!(work.job.unwrap().backend, Backend::Protocol { create: false, draw: true });
        }
        other => panic!("unexpected {:?}", other),
    }
    assert!(p.end_frame().is_empty());
    // scrolled so that the top is cut off: blank, and the resource goes
    p.begin_frame(area());
    match p.place_image(&info, 5, area(), None) {
        ImagePlan::Ready(work) => assert_eq!(work.job.unwrap().backend, Backend::Blank),
        other => panic!("unexpected {:?}", other),
    }
    assert_eq!(p.end_frame(), vec!["a".to_string()]);
    // back in view: the resource is made again
    p.begin_frame(area());
    match p.place_image(&info, 0, area(), None) {
        ImagePlan::Ready(work) => {
            assert_eq!(work.job.unwrap().backend, Backend::Protocol { create: true, draw: true });
        }
        other => panic!("unexpected {:?}", other),
    }
}

#[test]
fn protocol_resources_are_dropped_when_the_area_changes_size() {
    let mut p = ImagePipeline::new(true);
    let info = image("a.png", 0);
    assert!(p.begin_frame(area()));
    p.place_image(&info, 0, area(), Some("a".to_string()));
    p.deliver("a", size(10, 10), None);
    p.place_image(&info, 0, area(), None);
    p.end_frame();
    assert!(!p.begin_frame(area()));
    let moved = Rect::new(5, 2, 80, 20);
    assert!(!p.begin_frame(moved));
    let resized = Rect::new(5, 2, 81, 20);
    assert!(p.begin_frame(resized));
    match p.place_image(&info, 0, resized, None) {
        ImagePlan::Ready(work) => {
            assert_eq!(work.job.unwrap().backend, Backend::Protocol { create: true, draw: true });
        }
        other => panic!("unexpected {:?}", other),
    }
}

#[test]
fn failed_decode_with_a_protocol_keeps_the_placeholder() {
    let mut p = ImagePipeline::new(true);
    p.begin_frame(area());
    let info = image("bad.png", 0);
    p.place_image(&info, 0, area(), Some("bad".to_string()));
    p.deliver("bad", None, None);
    // with the top in view and with the top cut off: no cell is cleared
    for scroll in [0, 3] {
        match p.place_image(&info, scroll, area(), None) {
            ImagePlan::Ready(work) => {
                assert!(work.resize.is_none());
                assert!(work.job.is_none());
            }
            other => panic!("unexpected {:?}", other),
        }
    }
    // and no protocol resource was made that the end of the frame could drop
    assert!(p.end_frame().is_empty());
    assert!(p.end_frame().is_empty());
}

#[test]
fn a_failed_decode_delivered_with_a_hint_keeps_the_placeholder() {
    let mut p = ImagePipeline::new(true);
    p.begin_frame(area());
    p.deliver("p", None, Some("u".to_string()));
    match p.place_image(&image("u", 0), 0, area(), None) {
        ImagePlan::Ready(work) => {
            assert_eq!(work.path, "p");
            assert!(work.resize.is_none());
            assert!(work.job.is_none());
        }
        other => panic!("unexpected {:?}", other),
    }
}

#[test]
fn decode_result_with_a_hint_resolves_the_destination() {
    let mut state = PreviewState::new(false);
    state.poll_decoded_images(vec![DecodedImage {
        path: "/tmp/shot.png".to_string(),
        image: size(4, 4),
        url_hint: Some(".marko/images/shot.png".to_string()),
    }]);
    let info = image(".marko/images/shot.png", 0);
    assert!(!state.images.needs_resolution(&info, 0, area()));
    assert!(matches!(
        state.images.place_image(&info, 0, area(), None),
        ImagePlan::Ready(w) if w.path == "/tmp/shot.png"
    ));
}

#[test]
fn a_new_decode_result_invalidates_the_resized_bitmap() {
    let mut p = ImagePipeline::new(false);
    let info = image("a.png", 0);
    p.place_image(&info, 0, area(), Some("a".to_string()));
    p.deliver("a", size(10, 10), None);
    assert!(matches!(p.place_image(&info, 0, area(), None), ImagePlan::Ready(w) if w.resize.is_some()));
    p.deliver("a", size(20, 20), None);
    assert!(matches!(p.place_image(&info, 0, area(), None), ImagePlan::Ready(w) if w.resize.is_some()));
}

#[test]
fn scrolling_stays_within_the_content() {
    let mut s = PreviewState::new(false);
    s.set_content_height(100);
    s.scroll_up(1);
    assert_eq!(s.scroll_offset, 0);
    s.scroll_down(1, 20);
    assert_eq!(s.scroll_offset, 1);
    s.scroll_up(1);
    assert_eq!(s.scroll_offset, 0);
    s.page_down(20);
    assert_eq!(s.scroll_offset, 18);
    s.page_up(20);
    assert_eq!(s.scroll_offset, 0);
    s.scroll_down(u16::MAX, 20);
    assert_eq!(s.scroll_offset, 80);
    s.scroll_offset = u16::MAX;
    s.scroll_down(u16::MAX, 20);
    assert_eq!(s.scroll_offset, 80);
    s.set_content_height(10);
    s.scroll_down(5, 20);
    assert_eq!(s.scroll_offset, 0);
    s.page_down(1);
    assert_eq!(s.scroll_offset, 0);
}

#[test]
fn content_height_stops_at_the_largest_screen_coordinate() {
    let mut s = PreviewState::new(false);
    s.set_content_height(412);
    assert_eq!(s.content_height, 412);
    s.set_content_height(65535);
    assert_eq!(s.content_height, 65535);
    s.set_content_height(65536);
    assert_eq!(s.content_height, 65535);
    s.set_content_height(65536 + 7);
    assert_eq!(s.content_height, 65535);
}

#[test]
fn an_image_far_down_a_long_document_is_not_taken_for_one_at_the_top() {
    let mut pipeline = ImagePipeline::new(false);
    pipeline.begin_frame(area());
    // line 65536 + 2 is far below a viewport at the top
    let far = ImageInfo { url: "a.png".to_string(), start_line: 65536 + 2, line_count: 15 };
    assert!(!pipeline.needs_resolution(&far, 0, area()));
    assert!(matches!(
        pipeline.place_image(&far, 0, area(), Some("/a.png".to_string())),
        ImagePlan::Hidden
    ));
}

#[test]
fn layout_width_leaves_two_columns() {
    assert_eq!(layout_width(Rect::new(0, 0, 80, 10)), 78);
    assert_eq!(layout_width(Rect::new(0, 0, 1, 10)), 0);
}

#[test]
fn rect_is_cut_to_the_terminal_coordinates() {
    let r = Rect::new(u16::MAX - 5, 10, 100, u16::MAX);
    assert_eq!(r, Rect { x: u16::MAX - 5, y: 10, width: 5, height: u16::MAX - 10 });
    assert!(r.is_valid());
    assert!(!Rect { x: 10, y: 0, width: u16::MAX, height: 0 }.is_valid());
}

#[test]
fn url_at_finds_the_first_region_that_contains_the_position() {
    let links = vec![
        ClickableLink { y: 1, x_start: 2, x_end: 5, url: "a".to_string() },
        ClickableLink { y: 1, x_start: 4, x_end: 9, url: "b".to_string() },
    ];
    assert_eq!(url_at(&links, 2, 1), Some("a"));
    assert_eq!(url_at(&links, 4, 1), Some("a"));
    assert_eq!(url_at(&links, 5, 1), Some("b"));
    assert_eq!(url_at(&links, 9, 1), None);
    assert_eq!(url_at(&links, 3, 2), None);
    let mut s = PreviewState::new(false);
    s.click_links = links;
    assert_eq!(s.url_at(8, 1), Some("b"));
}

fn row(pattern: &str) -> Vec<Option<Style>> {
    pattern
        .chars()
        .map(|c| match c {
            'L' => Some(theme::link_style()),
            'c' => Some(Style::default().fg(theme::LINK)),
            'u' => Some(Style::default().add_modifier(Modifier::underlined())),
            '?' => None,
            _ => Some(Style::default()),
        })
        .collect()
}

fn regions(links: &[ClickableLink]) -> Vec<(u16, u16, u16, &str)> {
    links.iter().map(|l| (l.y, l.x_start, l.x_end, l.url.as_str())).collect()
}

#[test]
fn link_runs_are_paired_with_destinations_in_order() {
    let cells = vec![row(".LLL..LL."), row("........."), row(".......LL")];
    let urls = vec!["one".to_string(), "two".to_string(), "three".to_string()];
    let out = build_link_regions(&cells, Rect::new(10, 5, 9, 3), &urls);
    assert_eq!(
        regions(&out),
        vec![(5, 11, 14, "one"), (5, 16, 18, "two"), (7, 17, 19, "three")]
    );
}

#[test]
fn link_color_without_underline_is_no_link() {
    let cells = vec![row("cccuuu")];
    let urls = vec!["one".to_string()];
    assert!(build_link_regions(&cells, Rect::new(0, 0, 6, 1), &urls).is_empty());
}

#[test]
fn runs_beyond_the_destinations_are_dropped() {
    let cells = vec![row("L.L.L")];
    let urls = vec!["one".to_string()];
    let out = build_link_regions(&cells, Rect::new(0, 0, 5, 1), &urls);
    assert_eq!(regions(&out), vec![(0, 0, 1, "one")]);
    assert!(build_link_regions(&cells, Rect::new(0, 0, 5, 1), &Vec::new()).is_empty());
}

#[test]
fn missing_cells_neither_open_nor_close_a_run() {
    let cells = vec![row("L?L.")];
    let urls = vec!["one".to_string(), "two".to_string()];
    let out = build_link_regions(&cells, Rect::new(0, 0, 4, 1), &urls);
    assert_eq!(regions(&out), vec![(0, 0, 3, "one")]);
}

#[test]
fn blend_over_the_background() {
    let opaque = Bitmap { width: 1, height: 2, pixels: vec![200, 100, 0, 255, 0, 0, 0, 0] };
    let cells = render_halfblock_image(Rect::new(0, 0, 1, 1), &opaque, 1, 0);
    assert_eq!(
        cells,
        vec![vec![CellPaint::HalfBlock {
            upper: Rgb { r: 200, g: 100, b: 0 },
            lower: Rgb { r: 30, g: 30, b: 30 },
        }]]
    );
    let half = Bitmap { width: 1, height: 1, pixels: vec![255, 0, 30, 128] };
    let cells = render_halfblock_image(Rect::new(0, 0, 1, 1), &half, 1, 0);
    // (255 * 128 + 30 * 127) / 255 = 142, (0 * 128 + 30 * 127) / 255 = 14
    assert_eq!(
        cells[0][0],
        CellPaint::HalfBlock {
            upper: Rgb { r: 142, g: 14, b: 30 },
            lower: Rgb { r: 30, g: 30, b: 30 },
        }
    );
}

#[test]
fn halfblock_image_is_centered_and_offset() {
    // two columns, four pixel rows, every pixel opaque with its row in red
    let mut pixels = Vec::new();
    for y in 0..4u8 {
        for _x in 0..2 {
            pixels.extend_from_slice(&[100 + y, 0, 0, 255]);
        }
    }
    let bitmap = Bitmap { width: 2, height: 4, pixels };
    let cells = render_halfblock_image(Rect::new(0, 0, 6, 2), &bitmap, 6, 0);
    assert_eq!(cells.len(), 2);
    assert_eq!(cells[0].len(), 6);
    let block = |u: u8, l: u8| CellPaint::HalfBlock {
        upper: Rgb { r: u, g: 0, b: 0 },
        lower: Rgb { r: l, g: 0, b: 0 },
    };
    let r = CellPaint::Reset;
    assert_eq!(cells[0], vec![r, r, block(100, 101), block(100, 101), r, r]);
    assert_eq!(cells[1], vec![r, r, block(102, 103), block(102, 103), r, r]);
    // one row cut off at the top
    let cut = render_halfblock_image(Rect::new(0, 0, 6, 2), &bitmap, 6, 1);
    assert_eq!(cut[0], vec![r, r, block(102, 103), block(102, 103), r, r]);
    assert_eq!(cut[1], vec![r; 6]);
}

#[test]
fn empty_rect_draws_nothing() {
    let bitmap = Bitmap { width: 1, height: 1, pixels: vec![1, 2, 3, 255] };
    assert!(render_halfblock_image(Rect::new(0, 0, 0, 5), &bitmap, 1, 0).is_empty());
    assert!(render_halfblock_image(Rect::new(0, 0, 5, 0), &bitmap, 1, 0).is_empty());
}

#[test]
fn short_pixel_buffer_counts_as_background() {
    let bitmap = Bitmap { width: 2, height: 2, pixels: vec![9, 9, 9, 255] };
    let cells = render_halfblock_image(Rect::new(0, 0, 2, 1), &bitmap, 2, 0);
    assert!(matches!(cells[0][0], CellPaint::HalfBlock { .. }));
    assert_eq!(cells[0][1], CellPaint::Reset);
}

#[test]
fn keys_of_the_preview_scroll_within_the_content() {
    let mut s = PreviewState::new(false);
    s.set_content_height(100);
    s.apply(PreviewCommand::ScrollUp, 20);
    assert_eq!(s.scroll_offset, 0);
    s.apply(PreviewCommand::ScrollDown, 20);
    assert_eq!(s.scroll_offset, 1);
    s.apply(PreviewCommand::PageDown, 20);
    assert_eq!(s.scroll_offset, 19);
    s.apply(PreviewCommand::PageUp, 20);
    assert_eq!(s.scroll_offset, 1);
    s.apply(PreviewCommand::Bottom, 20);
    assert_eq!(s.scroll_offset, 80);
    s.apply(PreviewCommand::ScrollDown, 20);
    assert_eq!(s.scroll_offset, 80);
    s.apply(PreviewCommand::Nothing, 20);
    assert_eq!(s.scroll_offset, 80);
    s.apply(PreviewCommand::Top, 20);
    assert_eq!(s.scroll_offset, 0);
    // content that fits the viewport has no bottom to go to
    s.set_content_height(10);
    s.apply(PreviewCommand::Bottom, 20);
    assert_eq!(s.scroll_offset, 0);
}

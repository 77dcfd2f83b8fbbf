use mpdf::document::Document;
use mpdf::font::{Font, GlyphMetrics};
use mpdf::layout_engine::Engine;
use mpdf::preprocessor::Preprocessor;
use mpdf::raster::PixelBuffer;
use mpdf::render_engine::{render_ops, DrawOp};
use mpdf::resources_manager::{FontResource, ResourcesManager};

fn styled_div(doc: &mut Document, style: &str) -> usize {
    doc.visit_element_node("div", &vec![(String::from("style"), String::from(style))])
}

#[test]
fn childless_element_takes_its_styled_size() {
    let mut doc = Document::new();
    let a = styled_div(&mut doc, "width: 64px; height: 48px;");
    doc.add_element_to_root(a);
    doc.cascade_element_styles(0);
    let resources = ResourcesManager::new();
    let engine = Engine::new(&doc, &resources);
    let root = engine.process_document();
    assert_eq!(root.children.len(), 1);
    let boxed = &root.children[0];
    assert_eq!(boxed.width, 64_000);
    assert_eq!(boxed.height, 48_000);
    assert_eq!(boxed.local_x, 0);
    assert_eq!(boxed.local_y, 0);
}

#[test]
fn siblings_stack_vertically() {
    let mut doc = Document::new();
    let a = styled_div(&mut doc, "width: 64px; height: 48px;");
    let b = styled_div(&mut doc, "width: 32px; height: 32px;");
    doc.add_element_to_root(a);
    doc.add_element_to_root(b);
    doc.cascade_element_styles(0);
    let resources = ResourcesManager::new();
    let engine = Engine::new(&doc, &resources);
    let root = engine.process_document();
    assert_eq!(root.children.len(), 2);
    assert_eq!(root.children[0].local_y, 0);
    assert_eq!(root.children[1].local_y, 48_000);
    assert_eq!(root.height, 80_000);
    assert_eq!(root.width, 64_000);
}

#[test]
fn max_width_clamps_the_styled_width() {
    let mut doc = Document::new();
    let a = styled_div(&mut doc, "width: 10px; max-width: 5px;");
    doc.add_element_to_root(a);
    doc.cascade_element_styles(0);
    let resources = ResourcesManager::new();
    let engine = Engine::new(&doc, &resources);
    let root = engine.process_document();
    assert_eq!(root.children[0].width, 5_000);
}

#[test]
fn min_width_applies_when_width_is_absent() {
    let mut doc = Document::new();
    let a = styled_div(&mut doc, "min-width: 9px;");
    doc.add_element_to_root(a);
    doc.cascade_element_styles(0);
    let resources = ResourcesManager::new();
    let engine = Engine::new(&doc, &resources);
    let root = engine.process_document();
    assert_eq!(root.children[0].width, 9_000);
}

#[test]
fn nested_top_offsets_accumulate_absolutely() {
    let mut doc = Document::new();
    let outer = styled_div(&mut doc, "top: 10px; height: 5px;");
    let inner = styled_div(&mut doc, "top: 10px; height: 5px;");
    let leaf = styled_div(&mut doc, "height: 2px;");
    doc.add_element_to_root(outer);
    doc.add_element(inner, outer);
    doc.add_element(leaf, inner);
    doc.cascade_element_styles(0);
    let resources = ResourcesManager::new();
    let engine = Engine::new(&doc, &resources);
    let root = engine.process_document();
    let outer_box = &root.children[0];
    let inner_box = &outer_box.children[0];
    let leaf_box = &inner_box.children[0];
    assert_eq!(outer_box.y, 10_000);
    assert_eq!(inner_box.y, 20_000);
    assert_eq!(leaf_box.y, 20_000);
}

#[test]
fn left_offset_moves_the_box() {
    let mut doc = Document::new();
    let a = styled_div(&mut doc, "left: 7px; width: 3px; height: 3px;");
    doc.add_element_to_root(a);
    doc.cascade_element_styles(0);
    let resources = ResourcesManager::new();
    let engine = Engine::new(&doc, &resources);
    let root = engine.process_document();
    assert_eq!(root.children[0].local_x, 7_000);
    assert_eq!(root.children[0].x, 7_000);
    assert_eq!(root.width, 10_000);
}

#[test]
fn document_of_two_styled_children_end_to_end() {
    // <div><div style="width:64px;height:48px"></div>
    //      <div style="width:32px;height:32px"></div></div>
    let mut doc = Document::new();
    let wrapper = doc.visit_element_node("div", &Vec::new());
    let first = styled_div(&mut doc, "width:64px;height:48px");
    let second = styled_div(&mut doc, "width:32px;height:32px");
    doc.add_element_to_root(wrapper);
    doc.add_element(first, wrapper);
    doc.add_element(second, wrapper);
    doc.cascade_element_styles(0);
    let resources = ResourcesManager::new();
    let engine = Engine::new(&doc, &resources);
    let root = engine.process_document();
    let wrapper_box = &root.children[0];
    assert_eq!(wrapper_box.width, 64_000);
    assert_eq!(wrapper_box.height, 80_000);
    assert_eq!(wrapper_box.children[0].local_y, 0);
    assert_eq!(wrapper_box.children[1].local_y, 48_000);
    assert_eq!(wrapper_box.children[1].y, 48_000);
}

fn test_font() -> Font {
    // one em square of 1000 units; 'a' advances 500, stands 700 high
    let glyphs = vec![
        ('a', GlyphMetrics { advance_x: 500, min_y: 0, height: 700 }),
        ('g', GlyphMetrics { advance_x: 500, min_y: -200, height: 700 }),
    ];
    Font::from_metrics(1000, 250, glyphs)
}

#[test]
fn character_box_scales_by_font_size() {
    let font = test_font();
    let b = font.get_character_bounding_box('a', 12_000);
    assert_eq!(b.width, 6_000);
    assert_eq!(b.height, 8_400);
    let missing = font.get_character_bounding_box('z', 12_000);
    assert_eq!(missing.width, 0);
    assert_eq!(missing.height, 0);
}

#[test]
fn text_box_sums_advances_and_pads_descent() {
    let font = test_font();
    let b = font.get_text_bounding_box(&String::from("aa"), 12_000, true);
    assert_eq!(b.width, 12_000);
    // glyph height 8.4px plus descent 250/1000 em = 3px
    assert_eq!(b.height, 11_400);
    assert_eq!(b.y, 0);
    let bg = font.get_text_bounding_box(&String::from("g"), 12_000, false);
    assert_eq!(bg.height, 8_400);
    assert_eq!(bg.y, 2_400);
}

#[test]
fn text_node_measures_with_its_font() {
    let mut doc = Document::new();
    let t = doc.create_text_element("aa");
    doc.add_element_to_root(t);
    doc.cascade_element_styles(0);
    let mut resources = ResourcesManager::new();
    resources.add_font(
        String::from("Arial"),
        FontResource { name: String::from("Arial"), font: test_font() },
    );
    let engine = Engine::new(&doc, &resources);
    let root = engine.process_document();
    assert_eq!(root.children[0].width, 12_000);
    assert_eq!(root.children[0].height, 11_400);
}

#[test]
fn text_node_without_its_font_is_a_zero_box() {
    let mut doc = Document::new();
    let t = doc.create_text_element("aa");
    doc.add_element_to_root(t);
    doc.cascade_element_styles(0);
    let resources = ResourcesManager::new();
    let engine = Engine::new(&doc, &resources);
    let root = engine.process_document();
    assert_eq!(root.children[0].width, 0);
    assert_eq!(root.children[0].height, 0);
}

#[test]
fn preprocessor_collects_needed_font_names() {
    let mut doc = Document::new();
    let t1 = doc.create_text_element("one");
    let t2 = doc.create_text_element("two");
    doc.add_element_to_root(t1);
    doc.add_element_to_root(t2);
    let preprocessor = Preprocessor::new(&doc);
    let names = preprocessor.process_document();
    assert_eq!(names, vec![String::from("Arial")]);
}

#[test]
fn preprocessor_of_elements_only_needs_no_fonts() {
    let mut doc = Document::new();
    let a = doc.visit_element_node("div", &Vec::new());
    doc.add_element_to_root(a);
    let preprocessor = Preprocessor::new(&doc);
    assert!(preprocessor.process_document().is_empty());
}

#[test]
fn render_ops_fill_styled_background() {
    let mut doc = Document::new();
    let a = styled_div(
        &mut doc,
        "background-color: #102030; width: 4px; height: 2px;",
    );
    doc.add_element_to_root(a);
    doc.cascade_element_styles(0);
    let resources = ResourcesManager::new();
    let engine = Engine::new(&doc, &resources);
    let root = engine.process_document();
    let ops = render_ops(&doc, &resources, &root);
    // the root draws nothing; the child sets its fill and fills its box
    assert_eq!(ops.len(), 2);
    match &ops[0] {
        DrawOp::SetFillColor { color } => {
            assert_eq!((color.red, color.green, color.blue), (0x10, 0x20, 0x30));
        },
        _ => panic!("expected a fill color"),
    }
    match &ops[1] {
        DrawOp::FillRect { x, y, width, height } => {
            assert_eq!((*x, *y, *width, *height), (0, 0, 4_000, 2_000));
        },
        _ => panic!("expected a rectangle"),
    }
}

#[test]
fn render_ops_draw_text_with_fallback_font() {
    let mut doc = Document::new();
    let t = doc.create_text_element("hi");
    doc.add_element_to_root(t);
    doc.cascade_element_styles(0);
    let resources = ResourcesManager::new();
    let engine = Engine::new(&doc, &resources);
    let root = engine.process_document();
    let ops = render_ops(&doc, &resources, &root);
    assert_eq!(ops.len(), 2);
    match &ops[0] {
        DrawOp::SetFillColor { color } => {
            assert_eq!((color.red, color.green, color.blue, color.alpha), (0, 0, 0, 255));
        },
        _ => panic!("expected a fill color"),
    }
    match &ops[1] {
        DrawOp::DrawText { text, font_name, external_font, .. } => {
            assert_eq!(text, "hi");
            assert_eq!(font_name, "Arial");
            assert!(!external_font);
        },
        _ => panic!("expected text"),
    }
}

#[test]
fn raster_paints_pixels_and_rectangles() {
    let mut page = PixelBuffer::new();
    assert_eq!(page.data().len(), 595 * 842 * 3);
    assert_eq!(page.data()[0], 255);
    page.set_pixel(0, 0, 1, 2, 3);
    assert_eq!(&page.data()[0..3], &[1, 2, 3]);
    // out-of-page pixels are ignored
    page.set_pixel(-1, 0, 9, 9, 9);
    page.set_pixel(0, 842, 9, 9, 9);
    assert_eq!(&page.data()[0..3], &[1, 2, 3]);
    // a 2 by 2 rectangle at (1, 1)
    page.draw_rect(1, 1, 2, 2, 7, 8, 9);
    let row = |x: usize, y: usize| (y * 595 + x) * 3;
    for (x, y) in [(1, 1), (2, 1), (1, 2), (2, 2)] {
        assert_eq!(&page.data()[row(x, y)..row(x, y) + 3], &[7, 8, 9]);
    }
    assert_eq!(&page.data()[row(3, 1)..row(3, 1) + 3], &[255, 255, 255]);
}

#[test]
fn resources_manager_round_trip() {
    let mut resources = ResourcesManager::new();
    assert!(resources.get_font(&String::from("Arial")).is_none());
    resources.add_font(
        String::from("Arial"),
        FontResource { name: String::from("Arial"), font: test_font() },
    );
    let found = resources.get_font(&String::from("Arial")).unwrap();
    assert_eq!(found.name, "Arial");
    resources.add_image(
        String::from("a.png"),
        mpdf::resources_manager::ImageResource { path: String::from("a.png") },
    );
    assert!(resources.get_image(&String::from("a.png")).is_some());
}

#[test]
fn max_width_above_the_styled_width_changes_nothing() {
    let mut doc = Document::new();
    let a = styled_div(&mut doc, "width: 10px; max-width: 50px;");
    doc.add_element_to_root(a);
    doc.cascade_element_styles(0);
    let resources = ResourcesManager::new();
    let engine = Engine::new(&doc, &resources);
    let root = engine.process_document();
    assert_eq!(root.children[0].width, 10_000);
}

#[test]
fn layout_box_constructor_starts_at_zero() {
    let e = mpdf::layout_engine::Element::default(3);
    assert_eq!(e.element, 3);
    assert_eq!((e.width, e.height, e.x, e.y, e.local_x, e.local_y), (0, 0, 0, 0, 0, 0));
    assert!(e.children.is_empty());
}

#[test]
fn rect_types_hold_their_fields() {
    let r = mpdf::rect::Rect { x: 1, y: 2, width: 3, height: 4 };
    assert_eq!((r.x, r.y, r.width, r.height), (1, 2, 3, 4));
    let p = mpdf::rect::PxRect { x: 1, y: 2, width: 3, height: 4 };
    assert_eq!(p, mpdf::rect::PxRect { x: 1, y: 2, width: 3, height: 4 });
}

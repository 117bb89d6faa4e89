use psybeam::render::{
    composite_rect, draw_label, frame_plan, render, Canvas, GlyphRect, RenderItem, ShapedLabel,
};

fn rect(x: i32, w: u32, red: u8, green: u8, blue: u8, alpha: u8) -> GlyphRect {
    GlyphRect { x, y: 0, w, h: 1, red, green, blue, alpha }
}

fn pixel(canvas: &Canvas, col: usize, row: usize) -> [u8; 4] {
    let pos = (col + row * canvas.width as usize) * 4;
    [canvas.bytes[pos], canvas.bytes[pos + 1], canvas.bytes[pos + 2], canvas.bytes[pos + 3]]
}

#[test]
fn canvas_byte_length_is_width_height_4() {
    let c = Canvas::new(800, 24);
    assert_eq!(c.bytes.len(), 800 * 24 * 4);
    assert!(c.bytes.iter().all(|&b| b == 0));
}

#[test]
fn render_byte_length_is_width_height_4() {
    let items = vec![
        RenderItem::Spacer,
        RenderItem::Labels(vec![ShapedLabel { glyphs: vec![rect(0, 3, 255, 0, 0, 255)] }]),
    ];
    let (canvas, _) = render(17, 5, &items);
    assert_eq!(canvas.bytes.len(), 17 * 5 * 4);
}

#[test]
fn composite_writes_premultiplied_bgra() {
    let mut canvas = Canvas::new(4, 2);
    composite_rect(&mut canvas, 1, 0, 2, 1, 200, 100, 40, 128);
    // Source-over with alpha 128: each channel is scaled by 128/255.
    let expected = [
        (40u16 * 128 / 255) as u8,
        (100u16 * 128 / 255) as u8,
        (200u16 * 128 / 255) as u8,
        128,
    ];
    assert_eq!(pixel(&canvas, 1, 0), expected);
    assert_eq!(pixel(&canvas, 2, 0), expected);
    assert_eq!(pixel(&canvas, 0, 0), [0, 0, 0, 0]);
    assert_eq!(pixel(&canvas, 3, 0), [0, 0, 0, 0]);
    assert_eq!(pixel(&canvas, 1, 1), [0, 0, 0, 0]);
}

#[test]
fn composite_skips_pixels_outside_the_buffer() {
    let mut canvas = Canvas::new(2, 2);
    // A one-column rectangle running from row 1 down past the bottom edge:
    // only the pixel at (0, 1) lies inside the buffer.
    composite_rect(&mut canvas, 0, 1, 1, 5, 255, 255, 255, 255);
    assert_eq!(pixel(&canvas, 0, 0), [0, 0, 0, 0]);
    assert_eq!(pixel(&canvas, 1, 0), [0, 0, 0, 0]);
    assert_eq!(pixel(&canvas, 0, 1), [255, 255, 255, 255]);
    assert_eq!(pixel(&canvas, 1, 1), [0, 0, 0, 0]);

    // A rectangle wholly above the canvas writes nothing.
    let mut canvas2 = Canvas::new(2, 2);
    composite_rect(&mut canvas2, 0, -2, 1, 1, 255, 255, 255, 255);
    assert!(canvas2.bytes.iter().all(|&b| b == 0));
}

#[test]
fn composite_wraps_wide_rectangles_onto_the_next_row() {
    let mut canvas = Canvas::new(2, 2);
    // A 3-wide, 1-high rectangle at the origin of a 2-wide canvas: the
    // third pixel wraps onto the start of the next row, as the row-major
    // indexing dictates.
    composite_rect(&mut canvas, 0, 0, 3, 1, 255, 255, 255, 255);
    assert_eq!(pixel(&canvas, 0, 0), [255, 255, 255, 255]);
    assert_eq!(pixel(&canvas, 1, 0), [255, 255, 255, 255]);
    assert_eq!(pixel(&canvas, 0, 1), [255, 255, 255, 255]);
    assert_eq!(pixel(&canvas, 1, 1), [0, 0, 0, 0]);
}

#[test]
fn zero_alpha_rectangles_are_not_drawn() {
    let mut canvas = Canvas::new(4, 1);
    let glyphs = vec![rect(0, 4, 255, 255, 255, 0)];
    let cursor = draw_label(&mut canvas, 0, &glyphs);
    assert!(canvas.bytes.iter().all(|&b| b == 0));
    // Nothing was composited, so the right-most composited column is zero.
    assert_eq!(cursor, 0);
}

#[test]
fn draw_label_advances_cursor_to_rightmost_column() {
    let mut canvas = Canvas::new(16, 1);
    let glyphs = vec![rect(0, 3, 255, 0, 0, 255), rect(4, 2, 255, 0, 0, 255)];
    let cursor = draw_label(&mut canvas, 5, &glyphs);
    assert_eq!(cursor, 5 + 4 + 2);
}

#[test]
fn gui_renderer_draws_labels_left_to_right_and_nothing_for_spacers() {
    // Layout: [Spacer, Label A (red), Spacer, Label B (blue)].
    let label_a = ShapedLabel { glyphs: vec![rect(0, 2, 255, 0, 0, 255)] };
    let label_b = ShapedLabel { glyphs: vec![rect(0, 2, 0, 0, 255, 255)] };
    let items = vec![
        RenderItem::Spacer,
        RenderItem::Labels(vec![label_a.clone()]),
        RenderItem::Spacer,
        RenderItem::Labels(vec![label_b.clone()]),
    ];
    let (canvas, cursor) = render(8, 1, &items);

    // Exactly two labels drawn left to right with a strictly increasing
    // cursor: A covers columns 0..2, B covers columns 2..4.
    assert_eq!(pixel(&canvas, 0, 0), [0, 0, 255, 255]);
    assert_eq!(pixel(&canvas, 1, 0), [0, 0, 255, 255]);
    assert_eq!(pixel(&canvas, 2, 0), [255, 0, 0, 255]);
    assert_eq!(pixel(&canvas, 3, 0), [255, 0, 0, 255]);
    assert_eq!(pixel(&canvas, 4, 0), [0, 0, 0, 0]);
    assert_eq!(cursor, 4);

    // The cursor increased strictly at each label: 0 -> 2 -> 4.
    let (_, after_a) = render(8, 1, &vec![RenderItem::Labels(vec![label_a.clone()])]);
    assert_eq!(after_a, 2);
    assert!(0 < after_a && after_a < cursor);

    // The spacers drew nothing: the same layout without them renders the
    // identical canvas and cursor.
    let stripped = vec![
        RenderItem::Labels(vec![label_a]),
        RenderItem::Labels(vec![label_b]),
    ];
    let (canvas2, cursor2) = render(8, 1, &stripped);
    assert_eq!(canvas.bytes, canvas2.bytes);
    assert_eq!(cursor, cursor2);
}

#[test]
fn later_labels_overwrite_earlier_pixels() {
    let items = vec![
        RenderItem::Labels(vec![ShapedLabel { glyphs: vec![rect(0, 2, 255, 0, 0, 255)] }]),
        // This label reaches back left of the cursor and overwrites column 1.
        RenderItem::Labels(vec![ShapedLabel { glyphs: vec![rect(-1, 1, 0, 255, 0, 255)] }]),
    ];
    let (canvas, cursor) = render(4, 1, &items);
    assert_eq!(pixel(&canvas, 0, 0), [0, 0, 255, 255]);
    assert_eq!(pixel(&canvas, 1, 0), [0, 255, 0, 255]);
    assert_eq!(cursor, 2);
}

#[test]
fn frame_plan_geometry() {
    let p = frame_plan(800, 24);
    assert_eq!(p.pool_size, 800 * 24 * 4);
    assert_eq!(p.width, 800);
    assert_eq!(p.height, 24);
    assert_eq!(p.stride, 800 * 4);
}

use lyrics_overlay::canvas::{blend, to_signed, CanvasSize, Glyph, Ink, Pixel};
use lyrics_overlay::number::OutOfRange;
use lyrics_overlay::overlay::{
    glyph_origin, line_origin, render_passes, OverlayState, RenderPass,
};

const WHITE: Ink = Ink { r: 255, g: 255, b: 255, alpha: 255 };
const SHADOW: Ink = Ink { r: 0, g: 0, b: 0, alpha: 160 };

#[test]
fn blending_values() {
    let clear = Pixel { b: 0, g: 0, r: 0, a: 0 };
    assert_eq!(blend(clear, WHITE, 255), Pixel { b: 255, g: 255, r: 255, a: 255 });
    assert_eq!(blend(clear, SHADOW, 255), Pixel { b: 0, g: 0, r: 0, a: 160 });
    let below = Pixel { b: 10, g: 20, r: 30, a: 40 };
    let ink = Ink { r: 200, g: 100, b: 50, alpha: 160 };
    // The ink has alpha 80 here, the pixel keeps 175 parts of 255.
    assert_eq!(
        blend(below, ink, 128),
        Pixel { b: 15 + 6, g: 31 + 13, r: 62 + 20, a: 80 + 27 }
    );
}

#[test]
fn thin_ink_changes_nothing() {
    let below = Pixel { b: 1, g: 2, r: 3, a: 4 };
    assert_eq!(blend(below, SHADOW, 1), below);
    assert_eq!(blend(below, WHITE, 0), below);
    let odd = Pixel { b: 9, g: 9, r: 9, a: 0 };
    assert_eq!(blend(odd, SHADOW, 0), odd);
}

#[test]
fn opaque_ink_replaces() {
    let below = Pixel { b: 1, g: 2, r: 3, a: 4 };
    let ink = Ink { r: 7, g: 8, b: 9, alpha: 255 };
    assert_eq!(blend(below, ink, 255), Pixel { b: 9, g: 8, r: 7, a: 255 });
}

#[test]
fn blending_keeps_premultiplied_and_alpha() {
    for a in [0u8, 1, 77, 254, 255] {
        for c in [0u8, 1, 100, 255] {
            let below = Pixel { b: a, g: a / 2, r: 0, a };
            let p = blend(below, WHITE, c);
            assert!(p.b <= p.a && p.g <= p.a && p.r <= p.a);
            assert!(p.a >= below.a && p.a >= c);
        }
    }
}

#[test]
fn glyph_is_drawn_where_it_covers() {
    let size = CanvasSize { width: 3, height: 2 };
    let mut canvas = vec![0u8; 24];
    let glyph = Glyph { x: 1, y: 0, width: 2, height: 2, data: &[255, 0, 128, 255] };
    assert!(glyph.draw(&mut canvas, size, WHITE));
    let px = |x: usize, y: usize| &canvas[(y * 3 + x) * 4..(y * 3 + x) * 4 + 4];
    assert_eq!(px(0, 0), [0, 0, 0, 0]);
    assert_eq!(px(1, 0), [255, 255, 255, 255]);
    assert_eq!(px(2, 0), [0, 0, 0, 0]);
    assert_eq!(px(0, 1), [0, 0, 0, 0]);
    assert_eq!(px(1, 1), [128, 128, 128, 128]);
    assert_eq!(px(2, 1), [255, 255, 255, 255]);
}

#[test]
fn glyph_is_clipped() {
    let size = CanvasSize { width: 2, height: 2 };
    let mut canvas = vec![0u8; 16];
    let glyph = Glyph { x: -1, y: -1, width: 2, height: 2, data: &[255, 255, 255, 9] };
    assert!(glyph.draw(&mut canvas, size, WHITE));
    assert_eq!(canvas[0..4], [9, 9, 9, 9]);
    assert!(canvas[4..].iter().all(|b| *b == 0));
    let before = canvas.clone();
    let glyph = Glyph { x: 2, y: 0, width: 5, height: 5, data: &[255; 25] };
    assert!(glyph.draw(&mut canvas, size, WHITE));
    assert_eq!(canvas, before);
}

#[test]
fn glyph_with_short_data() {
    let size = CanvasSize { width: 2, height: 1 };
    let mut canvas = vec![0u8; 8];
    let glyph = Glyph { x: 0, y: 0, width: 2, height: 1, data: &[255] };
    assert!(glyph.draw(&mut canvas, size, SHADOW));
    assert_eq!(canvas, vec![0, 0, 0, 160, 0, 0, 0, 0]);
}

#[test]
fn glyph_out_of_range_leaves_the_canvas() {
    let size = CanvasSize { width: 2, height: 2 };
    let mut canvas = vec![7u8; 12];
    let glyph = Glyph { x: 0, y: 0, width: 2, height: 2, data: &[255; 4] };
    assert!(!glyph.fits(size, canvas.len()));
    assert!(!glyph.draw(&mut canvas, size, WHITE));
    assert_eq!(canvas, vec![7u8; 12]);
    let glyph = Glyph { x: i32::MAX, y: 0, width: 2, height: 1, data: &[] };
    assert!(!glyph.draw(&mut canvas, size, WHITE));
    let glyph = Glyph { x: i32::MAX, y: 0, width: 1, height: 1, data: &[] };
    assert!(glyph.draw(&mut canvas, size, WHITE));
}

#[test]
fn huge_sizes_count_as_negative() {
    assert_eq!(to_signed(0), 0);
    assert_eq!(to_signed(0x7fff_ffff), i32::MAX);
    assert_eq!(to_signed(0x8000_0000), i32::MIN);
    assert_eq!(to_signed(0xffff_ffff), -1);
    let mut canvas = vec![0u8; 4];
    let size = CanvasSize { width: 0xffff_ffff, height: 1 };
    let glyph = Glyph { x: 0, y: 0, width: 1, height: 1, data: &[255] };
    assert!(glyph.draw(&mut canvas, size, WHITE));
    assert_eq!(canvas, vec![0u8; 4]);
}

#[test]
fn passes_draw_the_shadow_first() {
    let (shadow, main) = render_passes(29).unwrap();
    assert_eq!(shadow, RenderPass { y_offset: 31, shadow_offset: 2, ink: SHADOW });
    assert_eq!(main, RenderPass { y_offset: 29, shadow_offset: 0, ink: WHITE });
    assert_eq!(render_passes(i32::MAX - 1), Err(OutOfRange));
}

#[test]
fn origins() {
    let (shadow, _) = render_passes(29).unwrap();
    let line = line_origin(shadow, 400, 26).unwrap();
    assert_eq!(line, (402, 59));
    assert_eq!(glyph_origin(line, 7, -1, 2, 15, 22), Ok((411, 65)));
    assert_eq!(line_origin(shadow, i32::MAX, 0), Err(OutOfRange));
    assert_eq!(line_origin(shadow, 0, i32::MAX), Err(OutOfRange));
    assert_eq!(glyph_origin((i32::MAX, 0), 1, 0, -1, 0, 0), Err(OutOfRange));
    assert_eq!(glyph_origin((0, 0), 0, i32::MIN, 0, 1, 1), Err(OutOfRange));
    assert_eq!(glyph_origin((0, 0), 0, 0, 0, i32::MIN, 0), Err(OutOfRange));
}

#[test]
fn overlay_is_drawn_once_configured() {
    let mut o = OverlayState::new(600, 80);
    assert!(o.draw(true, false, true).unwrap().is_none());
    o.configure(0, 100);
    assert_eq!((o.width, o.height, o.configured), (600, 100, true));
    assert!(o.draw(false, false, true).unwrap().is_none());
    let plan = o.draw(true, false, true).unwrap().unwrap();
    assert_eq!(plan.pool_bytes, Some(600 * 100 * 8));
    assert_eq!((plan.width, plan.height, plan.stride), (600, 100, 2400));
    assert_eq!(plan.text, None);
    o.configure(300, 0);
    let plan = o.draw(true, true, true).unwrap().unwrap();
    assert_eq!(plan.pool_bytes, None);
    assert_eq!((plan.width, plan.height, plan.stride), (300, 100, 1200));
}

#[test]
fn overlay_shows_the_lyric_while_visible() {
    let mut o = OverlayState::new(10, 10);
    o.configure(0, 0);
    assert!(!o.check_lyric_update(None));
    assert!(o.check_lyric_update(Some("la".to_string())));
    assert!(!o.check_lyric_update(None));
    assert_eq!(o.draw(true, true, true).unwrap().unwrap().text.as_deref(), Some("la"));
    assert_eq!(o.draw(true, true, false).unwrap().unwrap().text, None);
    assert!(!o.exit);
    o.closed();
    assert!(o.exit);
    assert_eq!(o.current_lyric, "la");
}

#[test]
fn overlay_sizes_out_of_range() {
    let mut o = OverlayState::new(0x8000, 0x8000);
    o.configure(0, 0);
    assert!(o.draw(true, false, true).is_err());
    assert!(o.draw(true, true, true).is_ok());
    let mut o = OverlayState::new(0x4000_0000, 0);
    o.configure(0, 0);
    assert!(o.draw(true, true, true).is_err());
    let mut o = OverlayState::new(0x2000_0000, 0);
    o.configure(0, 0);
    assert_eq!(o.draw(true, true, true).unwrap().unwrap().stride, i32::MIN);
}

#[test]
fn drawing_keeps_the_canvas_premultiplied() {
    let size = CanvasSize { width: 3, height: 3 };
    let mut canvas = vec![0u8; 36];
    let data: Vec<u8> = (0..9).map(|i| i * 31).collect();
    for (x, y, ink) in [(0, 0, SHADOW), (1, 1, WHITE), (-1, 0, Ink { r: 9, g: 200, b: 77, alpha: 99 })] {
        let glyph = Glyph { x, y, width: 3, height: 3, data: &data };
        assert!(glyph.draw(&mut canvas, size, ink));
        for p in canvas.chunks(4) {
            assert!(p[0] <= p[3] && p[1] <= p[3] && p[2] <= p[3]);
        }
    }
    assert!(canvas.iter().any(|b| *b > 0));
}

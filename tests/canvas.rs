use visual_pixels::canvas::{palette, Canvas};
use visual_pixels::engine::{create_ui, Effect, Key};

#[test]
fn new_canvas_is_black() {
    let c = Canvas::new(3, 2);
    assert_eq!(c.size(), (3, 2));
    assert_eq!(c.pixels, vec![(0, 0, 0); 6]);
}

#[test]
fn set_pixel_color_is_row_major() {
    let mut c = Canvas::new(3, 2);
    c.set_pixel_color(2, 1, (1, 2, 3));
    assert_eq!(c.pixels[5], (1, 2, 3));
    c.set_pixel_color(1, 0, (4, 5, 6));
    assert_eq!(c.pixels[1], (4, 5, 6));
    assert_eq!(c.pixels.iter().filter(|p| **p == (0, 0, 0)).count(), 4);
}

#[test]
fn palette_colours() {
    assert_eq!(palette('a'), Some((255, 0, 0)));
    assert_eq!(palette('z'), Some((0, 255, 0)));
    assert_eq!(palette('e'), Some((0, 0, 255)));
    assert_eq!(palette('q'), None);
}

#[test]
fn apply_effects_paints_pixels() {
    let mut c = Canvas::new(4, 4);
    c.apply(&Effect::Fill(vec![(0, 0), (1, 0), (9, 9)]));
    assert_eq!(c.pixels[0], (255, 255, 255));
    assert_eq!(c.pixels[1], (255, 255, 255));
    assert_eq!(c.pixels[2], (0, 0, 0));
    c.apply(&Effect::Edit('z', vec![(3, 3)]));
    assert_eq!(c.pixels[15], (0, 255, 0));
    c.apply(&Effect::Edit('q', vec![(3, 3)]));
    assert_eq!(c.pixels[15], (0, 255, 0));
    c.apply(&Effect::Zoom(true));
    assert_eq!(c.pixels[15], (0, 255, 0));
}

#[test]
fn typing_a_colour_paints_the_selection() {
    let mut ui = create_ui(4, 4);
    let mut canvas = Canvas::new(4, 4);
    let mut effects = Vec::new();
    for k in "vljia".chars().map(Key::Char) {
        ui.feed(k, &mut effects);
    }
    for e in &effects {
        canvas.apply(e);
    }
    for (x, y) in [(0usize, 0usize), (1, 0), (0, 1), (1, 1)] {
        assert_eq!(canvas.pixels[y * 4 + x], (255, 0, 0));
    }
    assert_eq!(canvas.pixels.iter().filter(|p| **p == (255, 0, 0)).count(), 4);
}

use rtils::palette::Rgba;
use rtils::screen::Col;

fn rgba(r: u8, g: u8, b: u8) -> Rgba {
    Rgba { r, g, b, a: 255 }
}

fn palette() -> Vec<Rgba> {
    let mut p = vec![Rgba { r: 0, g: 0, b: 0, a: 0 }];
    for i in 1..20u8 {
        p.push(rgba(i * 12, 255 - i * 12, 100));
    }
    p[1] = rgba(0, 0, 0);
    p[2] = rgba(255, 255, 255);
    p[4] = rgba(230, 41, 55);
    p
}

#[test]
fn nearest_palette_color_is_chosen() {
    let p = palette();
    assert_eq!(Col::from_color(rgba(250, 10, 10), &p), Col::Red);
    assert_eq!(Col::from_color(rgba(250, 250, 250), &p), Col::White);
    assert_eq!(Col::from_color(rgba(3, 3, 3), &p), Col::Empty);
    assert_eq!(Col::from_color(Rgba { r: 255, g: 255, b: 255, a: 100 }, &p), Col::Empty);
}

#[test]
fn ties_go_to_the_first_position() {
    let mut p = palette();
    p[5] = rgba(230, 41, 55);
    assert_eq!(Col::from_color(rgba(230, 41, 55), &p), Col::Red);
}

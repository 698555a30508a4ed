use rtils::tilemap::{TileMap, BACKGROUND_LAYER, FOREGROUND_LAYER, LAYER_COUNT, TILE_LAYER};

fn map() -> TileMap {
    TileMap::new(4, 3, "sky".to_string(), vec!["grass".to_string(), "rock".to_string()])
}

#[test]
fn new_map_is_empty_and_centered() {
    let m = map();
    assert_eq!(m.get_map_dimensions(), (4, 3));
    assert_eq!(m.get_view_dimensions(), (4, 3));
    let c = m.get_view_center();
    assert_eq!((c.x, c.y), (2, 1));
    for l in 0..LAYER_COUNT {
        for y in 0..3 {
            for x in 0..4 {
                assert_eq!(m.get_tile(l, x, y), 0);
            }
        }
    }
    let odd = TileMap::new(-3, -1, String::new(), vec![]);
    let c = odd.get_view_center();
    assert_eq!((c.x, c.y), (-1, 0));
}

#[test]
fn tiles_read_back_what_was_set() {
    let mut m = map();
    m.set_tile(TILE_LAYER, 3, 2, 7);
    m.set_tile(FOREGROUND_LAYER, 0, 0, 9);
    assert_eq!(m.get_tile(TILE_LAYER, 3, 2), 7);
    assert_eq!(m.get_tile(FOREGROUND_LAYER, 0, 0), 9);
    assert_eq!(m.get_tile(BACKGROUND_LAYER, 3, 2), 0);
    assert_eq!(m.get_tile(TILE_LAYER, 2, 2), 0);
    // Rows follow one another: (x, y) is tile y * width + x.
    m.set_tile(TILE_LAYER, 4, 0, 5);
    assert_eq!(m.get_tile(TILE_LAYER, 0, 1), 5);
}

#[test]
fn sprites_get_least_free_number() {
    let mut m = map();
    let a = m.create_sprite(1, 2, 3, 4, 1, TILE_LAYER);
    let b = m.create_sprite(-5, 70000, -1, 2, 2, 300);
    assert_eq!((a, b), (1, 2));
    let sb = m.get_sprite(b);
    assert_eq!(sb.x_pos, -5);
    assert_eq!(sb.y_pos, 70000i32 as i16);
    assert_eq!(sb.width, u16::MAX);
    assert_eq!(sb.layer, 300usize as u8);
    assert_eq!(sb.id, 2);
    m.delete_sprite(a);
    assert!(!m.check_sprite_exists(a));
    assert_eq!(m.create_sprite(0, 0, 1, 1, 0, 0), 1);
    let mut s = m.get_sprite(b);
    s.x_pos = 9;
    m.set_sprite(b, s);
    assert_eq!(m.get_sprite(b).x_pos, 9);
}

#[test]
fn images_are_numbered_from_one() {
    let mut m = map();
    // Two images were given: they hold numbers 1 and 2.
    assert_eq!(m.load_image("water"), 3);
    // The lookup walks from number 0, which no image holds.
    assert_eq!(m.get_image_id("grass"), None);
    assert_eq!(m.get_image_id("nothing"), None);
}

#[test]
fn view_and_mouse_settings() {
    let mut m = map();
    m.set_view_dimensions(2, 2);
    m.set_view_center(1, 1);
    assert_eq!(m.get_view_dimensions(), (2, 2));
    let c = m.get_view_center();
    assert_eq!((c.x, c.y), (1, 1));
    m.enable_mouse();
    m.disable_mouse();
}

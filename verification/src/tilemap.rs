//! A tile map: layers of tiles, the sprites placed on it, the table of
//! images that tiles and sprites name, and the part of the map in view.
use vstd::prelude::*;
use std::collections::BTreeMap;
use crate::http_parse::str_eq;
use crate::ui_layout::Pos2;

verus! {

broadcast use {vstd::std_specs::btree::group_btree_axioms, vstd::laws_cmp::group_laws_cmp};

pub const BACKGROUND_LAYER: usize = 0;
pub const TILE_LAYER: usize = 1;
pub const HIDDEN_LAYER: usize = 2;
pub const FOREGROUND_LAYER: usize = 3;
pub const LAYER_COUNT: usize = 4;

/// A sprite: where it stands on the map, its size, its image and its layer.
#[derive(Clone, Copy, Debug, PartialEq, Eq, Structural)]
pub struct Sprite {
    pub id: u16,
    pub x_pos: i16,
    pub y_pos: i16,
    pub width: u16,
    pub height: u16,
    pub image_id: u16,
    pub display_name: u16,
    pub layer: u8,
}

/// The image table that a list of names gives: the `i`-th name under
/// `i + 1` (as a `u16`, so that later names take the places of earlier ones
/// past 65535).
pub open spec fn image_table(names: Seq<Seq<char>>) -> Map<u16, Seq<char>>
    decreases names.len(),
{
    if names.len() == 0 {
        Map::empty()
    } else {
        image_table(names.drop_last()).insert((names.len() % 0x1_0000) as u16, names.last())
    }
}

/// The number of tiles in a layer of a `width` by `height` map: none where
/// the product is not positive.
pub open spec fn layer_size(width: i32, height: i32) -> nat {
    if width * height > 0 {
        (width * height) as nat
    } else {
        0
    }
}

/// Whether the tile at `(x, y)` of a map `width` wide lies in a layer of
/// `size` tiles.
pub open spec fn tile_index_ok(x: i32, y: i32, width: i32, size: nat) -> bool {
    &&& i32::MIN <= y * width <= i32::MAX
    &&& i32::MIN <= y * width + x <= i32::MAX
    &&& 0 <= y * width + x < size
}

/// Half of `w`, rounded toward zero.
pub open spec fn half(w: i32) -> i32 {
    if w >= 0 {
        (w / 2) as i32
    } else {
        (-((-w) / 2)) as i32
    }
}

/// The images, the sprites and the tiles of a map, and the part in view.
pub struct TileMap {
    background: String,
    layers: Vec<Vec<u16>>,
    draw_table: BTreeMap<u16, String>,
    sprites: BTreeMap<u16, Sprite>,
    map_width: i32,
    map_height: i32,
    draw_width: i32,
    draw_height: i32,
    center_x: i32,
    center_y: i32,
    allow_mouse_input: bool,
    selected: Option<u16>,
}

impl TileMap {
    /// The tiles of each layer, row by row.
    pub closed spec fn tiles(&self) -> Seq<Seq<u16>> {
        self.layers@.map_values(|l: Vec<u16>| l@)
    }

    /// The images by number.
    pub closed spec fn images(&self) -> Map<u16, Seq<char>> {
        self.draw_table@.map_values(|s: String| s@)
    }

    /// The sprites by number.
    pub closed spec fn sprites(&self) -> Map<u16, Sprite> {
        self.sprites@
    }

    /// The width of the map in tiles.
    pub closed spec fn width(&self) -> i32 {
        self.map_width
    }

    /// The height of the map in tiles.
    pub closed spec fn height(&self) -> i32 {
        self.map_height
    }

    /// The size of the part in view.
    pub closed spec fn view_size(&self) -> (i32, i32) {
        (self.draw_width, self.draw_height)
    }

    /// The tile at the middle of the view.
    pub closed spec fn view_center(&self) -> (i32, i32) {
        (self.center_x, self.center_y)
    }

    /// Whether sprites can be dragged with the mouse, and the one held.
    pub closed spec fn mouse_state(&self) -> (bool, Option<u16>) {
        (self.allow_mouse_input, self.selected)
    }

    /// Every layer holds a tile for each place of the map.
    pub closed spec fn wf(&self) -> bool {
        &&& self.layers@.len() == LAYER_COUNT
        &&& forall|l: int| 0 <= l < LAYER_COUNT ==> (#[trigger] self.layers@[l])@.len() == layer_size(
            self.map_width,
            self.map_height,
        )
    }

    /// A `width` by `height` map of empty tiles over the image `background`,
    /// its images named by `draw_table` from 1 on, viewed whole from its
    /// middle.
    pub fn new(width: i32, height: i32, background: String, draw_table: Vec<String>) -> (r: Self)
        requires
            i32::MIN <= width * height <= i32::MAX,
        ensures
            r.wf(),
            r.width() == width && r.height() == height,
            forall|l: int, i: int|
                0 <= l < LAYER_COUNT && 0 <= i < layer_size(width, height) ==> r.tiles()[l][i] == 0,
            r.images() == image_table(draw_table@.map_values(|s: String| s@)),
            r.sprites() == Map::<u16, Sprite>::empty(),
            r.view_size() == (width, height),
            r.view_center() == (half(width), half(height)),
            r.mouse_state() == (false, None::<u16>),
    {
        let n: i32 = width * height;
        let mut layers: Vec<Vec<u16>> = Vec::new();
        let mut l: usize = 0;
        while l < LAYER_COUNT
            invariant
                n == width * height,
                l <= LAYER_COUNT,
                layers@.len() == l,
                forall|k: int| 0 <= k < l ==> (#[trigger] layers@[k])@ == Seq::new(
                    layer_size(width, height),
                    |i: int| 0u16,
                ),
            decreases LAYER_COUNT - l,
        {
            let mut layer: Vec<u16> = Vec::new();
            let mut i: i32 = 0;
            while i < n
                invariant
                    n == width * height,
                    0 <= i,
                    i <= n || n <= 0,
                    n > 0 ==> layer@.len() == i,
                    n <= 0 ==> layer@.len() == 0,
                    forall|k: int| 0 <= k < layer@.len() ==> layer@[k] == 0u16,
                decreases n - i,
            {
                layer.push(0);
                i = i + 1;
            }
            proof {
                assert(layer@ =~= Seq::new(layer_size(width, height), |i: int| 0u16));
            }
            layers.push(layer);
            l = l + 1;
        }
        let mut table: BTreeMap<u16, String> = BTreeMap::new();
        let ghost names = draw_table@.map_values(|s: String| s@);
        let mut i: usize = 0;
        while i < draw_table.len()
            invariant
                names == draw_table@.map_values(|s: String| s@),
                i <= draw_table@.len(),
                table@.map_values(|s: String| s@) == image_table(names.take(i as int)),
            decreases draw_table@.len() - i,
        {
            let idx: u16 = ((i + 1) % 0x1_0000) as u16;
            let name = draw_table[i].clone();
            proof {
                assert(names.take(i + 1).drop_last() =~= names.take(i as int));
                assert(names.take(i + 1).last() == names[i as int]);
                assert(table@.insert(idx, name).map_values(|s: String| s@) =~= table@.map_values(
                    |s: String| s@,
                ).insert(idx, name@));
            }
            table.insert(idx, name);
            i = i + 1;
        }
        proof {
            assert(names.take(i as int) =~= names);
        }
        let r = TileMap {
            background,
            layers,
            draw_table: table,
            sprites: BTreeMap::new(),
            map_width: width,
            map_height: height,
            draw_width: width,
            draw_height: height,
            center_x: width / 2,
            center_y: height / 2,
            allow_mouse_input: false,
            selected: None,
        };
        proof {
            assert(r.tiles().len() == LAYER_COUNT);
        }
        r
    }

    /// The tile at `(x, y)` of layer `layer`, which must lie on the map.
    pub fn get_tile(&self, layer: usize, x: i32, y: i32) -> (r: u16)
        requires
            self.wf(),
            layer < LAYER_COUNT,
            tile_index_ok(x, y, self.width(), layer_size(self.width(), self.height())),
        ensures
            r == self.tiles()[layer as int][y * self.width() + x],
    {
        let idx = y * self.map_width + x;
        self.layers[layer][idx as usize]
    }

    /// Puts the tile `to` at `(x, y)` of layer `layer`, which must lie on the
    /// map.
    pub fn set_tile(&mut self, layer: usize, x: i32, y: i32, to: u16)
        requires
            old(self).wf(),
            layer < LAYER_COUNT,
            tile_index_ok(x, y, old(self).width(), layer_size(old(self).width(), old(self).height())),
        ensures
            final(self).wf(),
            final(self).tiles() == old(self).tiles().update(
                layer as int,
                old(self).tiles()[layer as int].update(y * old(self).width() + x, to),
            ),
            final(self).images() == old(self).images(),
            final(self).sprites() == old(self).sprites(),
            final(self).width() == old(self).width() && final(self).height() == old(self).height(),
            final(self).view_size() == old(self).view_size(),
            final(self).view_center() == old(self).view_center(),
            final(self).mouse_state() == old(self).mouse_state(),
    {
        let idx = (y * self.map_width + x) as usize;
        let mut row = self.layers.remove(layer);
        row.set(idx, to);
        self.layers.insert(layer, row);
        proof {
            assert(self.tiles() =~= old(self).tiles().update(
                layer as int,
                old(self).tiles()[layer as int].update(y * old(self).width() + x, to),
            ));
        }
    }

    /// Places a sprite of `w` by `h` at `(pos_x, pos_y)` on layer `layer`
    /// with the image `img`, under the least free number from 1, and returns
    /// the number; where no number below 65535 is free, nothing is placed
    /// and 0 is returned. Position, size and layer are cut to the sprite's
    /// field widths.
    pub fn create_sprite(&mut self, pos_x: i32, pos_y: i32, w: i32, h: i32, img: u16, layer: usize) -> (r: u16)
        ensures
            (exists|j: u16| 1 <= j < u16::MAX && !old(self).sprites().contains_key(j)) ==> {
                &&& 1 <= r < u16::MAX
                &&& !old(self).sprites().contains_key(r)
                &&& forall|j: u16| 1 <= j < r ==> old(self).sprites().contains_key(j)
                &&& final(self).sprites() == old(self).sprites().insert(
                    r,
                    Sprite {
                        id: r,
                        x_pos: pos_x as i16,
                        y_pos: pos_y as i16,
                        width: w as u16,
                        height: h as u16,
                        image_id: img,
                        display_name: 0,
                        layer: layer as u8,
                    },
                )
            },
            !(exists|j: u16| 1 <= j < u16::MAX && !old(self).sprites().contains_key(j)) ==> r == 0
                && final(self).sprites() == old(self).sprites(),
            final(self).tiles() == old(self).tiles(),
            final(self).images() == old(self).images(),
            final(self).width() == old(self).width() && final(self).height() == old(self).height(),
            final(self).view_size() == old(self).view_size(),
            final(self).view_center() == old(self).view_center(),
            final(self).mouse_state() == old(self).mouse_state(),
            old(self).wf() ==> final(self).wf(),
    {
        let mut i: u16 = 1;
        loop
            invariant
                1 <= i,
                self.sprites@ == old(self).sprites(),
                self.layers@ == old(self).layers@,
                self.draw_table@ == old(self).draw_table@,
                self.map_width == old(self).map_width && self.map_height == old(self).map_height,
                self.draw_width == old(self).draw_width && self.draw_height == old(self).draw_height,
                self.center_x == old(self).center_x && self.center_y == old(self).center_y,
                self.allow_mouse_input == old(self).allow_mouse_input,
                self.selected == old(self).selected,
                forall|j: u16| 1 <= j < i ==> self.sprites@.contains_key(j),
            decreases u16::MAX - i,
        {
            if i == u16::MAX {
                return 0;
            }
            if !self.sprites.contains_key(&i) {
                let s = Sprite {
                    id: i,
                    x_pos: #[verifier::truncate] (pos_x as i16),
                    y_pos: #[verifier::truncate] (pos_y as i16),
                    width: #[verifier::truncate] (w as u16),
                    height: #[verifier::truncate] (h as u16),
                    image_id: img,
                    display_name: 0,
                    layer: #[verifier::truncate] (layer as u8),
                };
                self.sprites.insert(i, s);
                return i;
            }
            i = i + 1;
        }
    }

    /// The sprite numbered `id`, which must exist.
    pub fn get_sprite(&self, id: u16) -> (r: Sprite)
        requires
            self.sprites().contains_key(id),
        ensures
            r == self.sprites()[id],
    {
        *self.sprites.get(&id).unwrap()
    }

    /// Replaces the sprite numbered `id`, which must exist.
    pub fn set_sprite(&mut self, id: u16, sprite: Sprite)
        requires
            old(self).sprites().contains_key(id),
        ensures
            final(self).sprites() == old(self).sprites().insert(id, sprite),
            final(self).tiles() == old(self).tiles(),
            final(self).images() == old(self).images(),
            old(self).wf() ==> final(self).wf(),
    {
        self.sprites.insert(id, sprite);
    }

    /// Removes the sprite numbered `id`, if there is one.
    pub fn delete_sprite(&mut self, id: u16)
        ensures
            final(self).sprites() == old(self).sprites().remove(id),
            final(self).tiles() == old(self).tiles(),
            final(self).images() == old(self).images(),
            old(self).wf() ==> final(self).wf(),
    {
        self.sprites.remove(&id);
    }

    /// Whether a sprite is numbered `id`.
    pub fn check_sprite_exists(&self, id: u16) -> (r: bool)
        ensures
            r == self.sprites().contains_key(id),
    {
        self.sprites.contains_key(&id)
    }

    /// Looks `name` up by walking the image table from number 0 for as long
    /// as the numbers are taken: the first number `i` that holds `name`
    /// gives `Some(i + 1)`. Since images are numbered from 1, the walk ends
    /// at once unless an image is numbered 0. The table must hold at most
    /// 65535 images, so that `i + 1` fits in a `u16`.
    pub fn get_image_id(&self, name: &str) -> (r: Option<u16>)
        requires
            self.images().len() <= u16::MAX,
        ensures
            match r {
                Some(k) => {
                    &&& 1 <= k
                    &&& self.images().contains_key((k - 1) as u16)
                    &&& self.images()[(k - 1) as u16] == name@
                    &&& forall|j: u16| j < k - 1 ==> self.images().contains_key(j)
                        && self.images()[j] != name@
                },
                None => forall|j: u16|
                    (forall|i: u16| i <= j ==> #[trigger] self.images().contains_key(i)) && j
                        < self.images().len() ==> self.images()[j] != name@,
            },
    {
        let n = self.draw_table.len();
        proof {
            assert(self.images().dom() =~= self.draw_table@.dom());
        }
        let mut i: usize = 0;
        while i < n
            invariant
                n == self.images().len(),
                n <= u16::MAX,
                i <= n,
                forall|j: u16| j < i ==> #[trigger] self.images().contains_key(j) && self.images()[j] != name@,
            decreases n - i,
        {
            let k: u16 = i as u16;
            assert(k as int == i as int);
            match self.draw_table.get(&k) {
                Some(x) => {
                    proof {
                        assert(self.draw_table@.contains_key(k));
                        assert(self.images().contains_key(k));
                    }
                    if str_eq(x.as_str(), name) {
                        proof {
                            assert(self.images()[k] == x@);
                            assert((k + 1 - 1) as u16 == k);
                            assert forall|j: u16| j < k implies #[trigger] self.images().contains_key(j)
                                && self.images()[j] != name@ by {
                                if j < i {
                                }
                            }
                        }
                        return Some(k + 1);
                    }
                    proof {
                        assert(x@ != name@);
                        assert(self.images()[k] == x@);
                        assert(self.images()[k] != name@);
                        assert forall|j: u16| j < i + 1 implies self.images().contains_key(j)
                            && self.images()[j] != name@ by {
                            if j < i {
                            } else {
                                assert(j == k);
                            }
                        }
                    }
                },
                None => {
                    proof {
                        assert(!self.draw_table@.contains_key(k));
                        assert(!self.images().contains_key(k));
                        assert forall|j: u16|
                            (forall|i2: u16| i2 <= j ==> #[trigger] self.images().contains_key(i2)) && j
                                < self.images().len() implies self.images()[j] != name@ by {
                            if j < k {
                                assert(self.images().contains_key(j));
                            } else {
                                assert(self.images().contains_key(k));
                            }
                        }
                    }
                    return None;
                },
            }
            i = i + 1;
        }
        None
    }

    /// Adds the image `name` under the least free number from 1 below 65535;
    /// where none is free, it takes number 1's place.
    pub fn load_image(&mut self, name: &str) -> (r: u16)
        ensures
            (exists|j: u16| 1 <= j < u16::MAX && !old(self).images().contains_key(j)) ==> {
                &&& 1 <= r < u16::MAX
                &&& !old(self).images().contains_key(r)
                &&& forall|j: u16| 1 <= j < r ==> old(self).images().contains_key(j)
            },
            !(exists|j: u16| 1 <= j < u16::MAX && !old(self).images().contains_key(j)) ==> r == 1,
            final(self).images() == old(self).images().insert(r, name@),
            final(self).tiles() == old(self).tiles(),
            final(self).sprites() == old(self).sprites(),
            old(self).wf() ==> final(self).wf(),
    {
        proof {
            assert(old(self).images().dom() =~= old(self).draw_table@.dom());
        }
        let mut i: u16 = 1;
        loop
            invariant
                1 <= i,
                old(self).images().dom() == old(self).draw_table@.dom(),
                self.draw_table@ == old(self).draw_table@,
                self.layers@ == old(self).layers@,
                self.sprites@ == old(self).sprites@,
                self.map_width == old(self).map_width && self.map_height == old(self).map_height,
                forall|j: u16| 1 <= j < i ==> self.draw_table@.contains_key(j),
            decreases u16::MAX - i,
        {
            let idx: u16 = if i == u16::MAX {
                1
            } else if !self.draw_table.contains_key(&i) {
                i
            } else {
                0
            };
            if idx != 0 {
                let s = name.to_owned();
                self.draw_table.insert(idx, s);
                proof {
                    assert(self.images() =~= old(self).images().insert(idx, name@));
                }
                return idx;
            }
            i = i + 1;
        }
    }

    /// The size of the map in tiles.
    pub fn get_map_dimensions(&self) -> (r: (i32, i32))
        ensures
            r == (self.width(), self.height()),
    {
        (self.map_width, self.map_height)
    }

    /// The size of the part in view.
    pub fn get_view_dimensions(&self) -> (r: (i32, i32))
        ensures
            r == self.view_size(),
    {
        (self.draw_width, self.draw_height)
    }

    /// Sets the size of the part in view.
    pub fn set_view_dimensions(&mut self, w: i32, h: i32)
        ensures
            final(self).view_size() == (w, h),
            final(self).view_center() == old(self).view_center(),
            final(self).tiles() == old(self).tiles(),
            final(self).images() == old(self).images(),
            final(self).sprites() == old(self).sprites(),
            old(self).wf() ==> final(self).wf(),
    {
        self.draw_width = w;
        self.draw_height = h;
    }

    /// The tile at the middle of the view.
    pub fn get_view_center(&self) -> (r: Pos2)
        ensures
            (r.x, r.y) == self.view_center(),
    {
        Pos2 { x: self.center_x, y: self.center_y }
    }

    /// Sets the tile at the middle of the view.
    pub fn set_view_center(&mut self, x: i32, y: i32)
        ensures
            final(self).view_center() == (x, y),
            final(self).view_size() == old(self).view_size(),
            final(self).tiles() == old(self).tiles(),
            final(self).images() == old(self).images(),
            final(self).sprites() == old(self).sprites(),
            old(self).wf() ==> final(self).wf(),
    {
        self.center_x = x;
        self.center_y = y;
    }

    /// Lets sprites be dragged with the mouse; none is held.
    pub fn enable_mouse(&mut self)
        ensures
            final(self).mouse_state() == (true, None::<u16>),
            final(self).tiles() == old(self).tiles(),
            final(self).sprites() == old(self).sprites(),
            old(self).wf() ==> final(self).wf(),
    {
        self.allow_mouse_input = true;
        self.selected = None;
    }

    /// Stops sprites from being dragged; none is held.
    pub fn disable_mouse(&mut self)
        ensures
            final(self).mouse_state() == (false, None::<u16>),
            final(self).tiles() == old(self).tiles(),
            final(self).sprites() == old(self).sprites(),
            old(self).wf() ==> final(self).wf(),
    {
        self.allow_mouse_input = false;
        self.selected = None;
    }
}

/// A tile read back where it was put gives what was put, and the other
/// tiles are as they were.
pub proof fn law_tile_read_after_write(tiles: Seq<Seq<u16>>, layer: int, idx: int, to: u16, l2: int, i2: int)
    requires
        0 <= layer < tiles.len(),
        0 <= idx < tiles[layer].len(),
        0 <= l2 < tiles.len(),
        0 <= i2 < tiles[l2].len(),
    ensures
        tiles.update(layer, tiles[layer].update(idx, to))[layer][idx] == to,
        (l2 != layer || i2 != idx) ==> tiles.update(layer, tiles[layer].update(idx, to))[l2][i2]
            == tiles[l2][i2],
{
}

} // verus!

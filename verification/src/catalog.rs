//! The digit catalog: the ten glyphs of the embedded asset, indexed by digit.

use vstd::prelude::*;

use crate::loader::AssetError;
use crate::loader::block_error_ok;
use crate::loader::block_ok;
use crate::loader::blocks_of;
use crate::loader::first_bad_block;
use crate::loader::glyph_of_block;
use crate::loader::load_digit_sprites;
use crate::sprite::Color;
use crate::sprite::SpriteData;
use crate::sprite::SpriteView;

verus! {

/// Width of every digit glyph, in pixels.
pub const DIGIT_WIDTH: i32 = 8;

/// Height of every digit glyph, in pixels.
pub const DIGIT_HEIGHT: i32 = 7;

/// The bundled digit sprite asset: ten blank-line-separated glyph blocks of
/// 7 rows by 8 columns, stored in descending digit order (9 down to 0).
pub const RAW_NUMBER_DATA: &'static str = ".1111...
1....1..
1....1..
.11111..
.....1..
.....1..
.1111...

.1111...
1....1..
1....1..
.1111...
1....1..
1....1..
.1111...

111111..
.....1..
....1...
...1....
..1.....
..1.....
..1.....

.1111...
1.......
11111...
1....1..
1....1..
1....1..
.1111...

111111..
1.......
11111...
.....1..
.....1..
1....1..
.1111...

....1...
...11...
..1.1...
.1..1...
111111..
....1...
....1...

.1111...
1....1..
.....1..
..111...
.....1..
1....1..
.1111...

.1111...
1....1..
.....1..
..111...
.1......
1.......
111111..

...1....
..11....
...1....
...1....
...1....
...1....
..111...

.1111...
1....1..
1....1..
1....1..
1....1..
1....1..
.1111...
";

/// The glyph blocks of the embedded asset.
pub open spec fn asset_blocks() -> Seq<Seq<Seq<char>>> {
    blocks_of(RAW_NUMBER_DATA@)
}

/// The pixel grid of digit `d` in the embedded asset: block order is
/// reversed, digit 0 being the last block of the text.
pub open spec fn asset_glyph(d: int) -> Seq<Seq<Color>> {
    glyph_of_block(asset_blocks()[asset_blocks().len() - 1 - d])
}

/// A glyph's grid has exactly the catalog dimensions.
pub open spec fn glyph_dims_ok(g: Seq<Seq<Color>>) -> bool {
    &&& g.len() == DIGIT_HEIGHT as int
    &&& forall|r: int| 0 <= r < g.len() ==> (#[trigger] g[r]).len() == DIGIT_WIDTH as int
}

/// The embedded asset is well formed: ten clean blocks of the right size.
pub open spec fn asset_ok() -> bool {
    &&& forall|k: int| 0 <= k < asset_blocks().len() ==> block_ok(#[trigger] asset_blocks()[k])
    &&& asset_blocks().len() == 10
    &&& forall|d: int| 0 <= d < 10 ==> glyph_dims_ok(#[trigger] asset_glyph(d))
}

/// A catalog value holds one glyph grid per digit, all of the fixed size.
pub open spec fn catalog_wf(v: Seq<Seq<Seq<Color>>>) -> bool {
    &&& v.len() == 10
    &&& forall|d: int| 0 <= d < v.len() ==> glyph_dims_ok(#[trigger] v[d])
}

/// The ordered collection of the ten digit glyphs, digit `i` at index `i`.
/// Built once at startup and read-only afterwards.
#[derive(Debug)]
pub struct DigitCatalog {
    sprites: Vec<SpriteData>,
}

impl View for DigitCatalog {
    type V = Seq<Seq<Seq<Color>>>;

    /// A catalog is modelled as the sequence of its glyphs' pixel grids.
    closed spec fn view(&self) -> Seq<Seq<Seq<Color>>> {
        self.sprites@.map_values(|s: SpriteData| s@.data)
    }
}

impl DigitCatalog {
    /// Catalog sprites sit at the origin, unscaled, with fixed-size grids.
    #[verifier::type_invariant]
    closed spec fn inv(self) -> bool {
        &&& self.sprites@.len() == 10
        &&& forall|d: int|
            0 <= d < 10 ==> {
                let sv = (#[trigger] self.sprites@[d])@;
                &&& sv.x == 0
                &&& sv.y == 0
                &&& sv.scale == 1
                &&& glyph_dims_ok(sv.data)
            }
    }

    /// Wraps parsed sprites as the digit catalog, checking that there are
    /// exactly ten and that each has the fixed glyph size.
    pub fn from_sprites(sprites: Vec<SpriteData>) -> (r: Result<DigitCatalog, AssetError>)
        requires
            forall|d: int|
                0 <= d < sprites@.len() ==> {
                    let sv = (#[trigger] sprites@[d])@;
                    sv.x == 0 && sv.y == 0 && sv.scale == 1
                },
        ensures
            r is Ok <==> (sprites@.len() == 10 && forall|d: int|
                0 <= d < sprites@.len() ==> glyph_dims_ok((#[trigger] sprites@[d])@.data)),
            r matches Ok(c) ==> {
                &&& catalog_wf(c@)
                &&& c@ == sprites@.map_values(|s: SpriteData| s@.data)
            },
            r matches Err(e) ==> match e {
                AssetError::WrongGlyphCount { found } => found == sprites@.len()
                    && sprites@.len() != 10,
                AssetError::WrongGlyphSize { index } => {
                    &&& sprites@.len() == 10
                    &&& 0 <= index < 10
                    &&& !glyph_dims_ok(sprites@[index as int]@.data)
                    &&& forall|d: int|
                        0 <= d < index ==> glyph_dims_ok((#[trigger] sprites@[d])@.data)
                },
                _ => false,
            },
    {
        if sprites.len() != 10 {
            return Err(AssetError::WrongGlyphCount { found: sprites.len() });
        }
        let mut d: usize = 0;
        while d < 10
            invariant
                sprites@.len() == 10,
                0 <= d <= 10,
                forall|t: int| 0 <= t < d ==> glyph_dims_ok((#[trigger] sprites@[t])@.data),
            decreases 10 - d,
        {
            let s = &sprites[d];
            proof {
                use_type_invariant(s);
            }
            if !(s.n_rows() == 7 && s.n_cols() == 8) {
                return Err(AssetError::WrongGlyphSize { index: d });
            }
            d += 1;
        }
        let c = DigitCatalog { sprites };
        proof {
            assert(c@ =~= c.sprites@.map_values(|s: SpriteData| s@.data));
        }
        Ok(c)
    }

    /// Parses the embedded asset into the digit catalog. Any malformed-asset
    /// condition is reported as the distinguishable load error a caller
    /// checks once at startup: the first bad block, a wrong block count, or
    /// a wrong glyph size, in that order of precedence.
    pub fn load() -> (r: Result<DigitCatalog, AssetError>)
        ensures
            r is Ok <==> asset_ok(),
            r matches Ok(c) ==> {
                &&& catalog_wf(c@)
                &&& forall|d: int| 0 <= d < 10 ==> c@[d] == asset_glyph(d)
            },
            r matches Err(e) ==> {
                ||| exists|k: int|
                    #[trigger] first_bad_block(asset_blocks(), k) && block_error_ok(
                        asset_blocks()[k],
                        e,
                    )
                ||| {
                    &&& forall|k: int|
                        0 <= k < asset_blocks().len() ==> block_ok(#[trigger] asset_blocks()[k])
                    &&& asset_blocks().len() != 10
                    &&& e == (AssetError::WrongGlyphCount { found: asset_blocks().len() as usize })
                }
                ||| {
                    &&& forall|k: int|
                        0 <= k < asset_blocks().len() ==> block_ok(#[trigger] asset_blocks()[k])
                    &&& asset_blocks().len() == 10
                    &&& e matches AssetError::WrongGlyphSize { index } && 0 <= index < 10
                        && !glyph_dims_ok(asset_glyph(index as int)) && forall|d: int|
                        0 <= d < index ==> glyph_dims_ok(#[trigger] asset_glyph(d))
                }
            },
    {
        match load_digit_sprites(RAW_NUMBER_DATA) {
            Err(e) => Err(e),
            Ok(v) => {
                proof {
                    assert(forall|d: int|
                        0 <= d < v@.len() ==> (#[trigger] v@[d])@.data == asset_glyph(d));
                    assert(forall|d: int|
                        0 <= d < v@.len() ==> #[trigger] asset_glyph(d) == v@[d]@.data);
                }
                DigitCatalog::from_sprites(v)
            },
        }
    }

    /// A copy of the glyph for one digit, placed at the origin, unscaled.
    /// Every glyph handed out has the fixed 8-by-7 pixel grid.
    pub fn get_sprite(&self, digit_index: u32) -> (s: SpriteData)
        requires
            digit_index < 10,
        ensures
            s@ == (SpriteView { x: 0, y: 0, scale: 1, data: self@[digit_index as int] }),
            catalog_wf(self@),
    {
        proof {
            use_type_invariant(self);
        }
        self.sprites[digit_index as usize].clone()
    }
}

/// Catalog lookups are idempotent: the glyph a digit maps to is a function
/// of the catalog value alone, so any two lookups of the same digit return
/// glyphs with identical position, scale and pixel content.
pub proof fn lemma_lookup_idempotent(c: &DigitCatalog, d: int, g1: SpriteView, g2: SpriteView)
    requires
        0 <= d < 10,
        g1 == (SpriteView { x: 0, y: 0, scale: 1, data: c@[d] }),
        g2 == (SpriteView { x: 0, y: 0, scale: 1, data: c@[d] }),
    ensures
        g1 == g2,
{
}

} // verus!

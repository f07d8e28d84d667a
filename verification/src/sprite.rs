//! Pixel colors, sprite bitmaps and positioned draw commands.

use vstd::prelude::*;

verus! {

/// An RGBA pixel color. The glyph loader only ever produces opaque white
/// (`Color::white`) and fully transparent (`Color::invisible`) pixels.
#[derive(Clone, Copy, PartialEq, Eq, Structural, Debug)]
pub struct Color {
    pub r: u8,
    pub g: u8,
    pub b: u8,
    pub a: u8,
}

impl Color {
    /// Opaque white, the foreground color of every glyph pixel.
    pub fn white() -> (c: Color)
        ensures
            c == (Color { r: 255, g: 255, b: 255, a: 255 }),
    {
        Color { r: 255, g: 255, b: 255, a: 255 }
    }

    /// Fully transparent, the background color of every glyph pixel.
    pub fn invisible() -> (c: Color)
        ensures
            c == (Color { r: 0, g: 0, b: 0, a: 0 }),
    {
        Color { r: 0, g: 0, b: 0, a: 0 }
    }

    /// A pixel is visible when it is not fully transparent.
    pub open spec fn spec_is_visible(&self) -> bool {
        self.a > 0
    }

    #[verifier::when_used_as_spec(spec_is_visible)]
    pub fn is_visible(&self) -> (b: bool)
        ensures
            b == self.spec_is_visible(),
    {
        self.a > 0
    }
}

/// The mathematical value of a sprite: a position, an integer scale factor and
/// a rectangular grid of pixel colors.
pub struct SpriteView {
    pub x: int,
    pub y: int,
    pub scale: int,
    pub data: Seq<Seq<Color>>,
}

/// A bitmap sprite: a grid of pixel colors plus a screen position and a scale.
#[derive(Debug)]
pub struct SpriteData {
    x: i32,
    y: i32,
    scale: i32,
    data: Vec<Vec<Color>>,
}

/// The pixel grid of a sprite as a sequence of rows.
pub open spec fn grid_view(data: Seq<Vec<Color>>) -> Seq<Seq<Color>> {
    data.map_values(|row: Vec<Color>| row@)
}

/// A pixel grid is rectangular when every row has the length of the first.
pub open spec fn grid_rectangular(data: Seq<Seq<Color>>) -> bool {
    forall|i: int| 0 <= i < data.len() ==> #[trigger] data[i].len() == data[0].len()
}

impl View for SpriteData {
    type V = SpriteView;

    closed spec fn view(&self) -> SpriteView {
        SpriteView {
            x: self.x as int,
            y: self.y as int,
            scale: self.scale as int,
            data: grid_view(self.data@),
        }
    }
}

impl SpriteData {
    /// Every sprite keeps a rectangular grid and a positive scale.
    #[verifier::type_invariant]
    pub open spec fn wf(self) -> bool {
        &&& grid_rectangular(self@.data)
        &&& self@.scale >= 1
    }

    /// Builds a sprite at the origin from a rectangular pixel grid.
    pub fn new(data: Vec<Vec<Color>>, scale: i32) -> (s: SpriteData)
        requires
            grid_rectangular(grid_view(data@)),
            scale >= 1,
        ensures
            s@ == (SpriteView { x: 0, y: 0, scale: scale as int, data: grid_view(data@) }),
    {
        SpriteData { x: 0, y: 0, scale, data }
    }

    /// The sprite's horizontal screen position.
    pub fn x(&self) -> (r: i32)
        ensures
            r as int == self@.x,
    {
        self.x
    }

    /// The sprite's vertical screen position.
    pub fn y(&self) -> (r: i32)
        ensures
            r as int == self@.y,
    {
        self.y
    }

    /// Number of pixel rows in the grid.
    pub fn n_rows(&self) -> (r: usize)
        ensures
            r as int == self@.data.len(),
    {
        self.data.len()
    }

    /// Number of pixel columns in the grid (zero for an empty grid).
    pub fn n_cols(&self) -> (r: usize)
        ensures
            self@.data.len() == 0 ==> r == 0,
            self@.data.len() > 0 ==> r as int == self@.data[0].len(),
    {
        proof {
            use_type_invariant(self);
        }
        if self.data.len() == 0 {
            0
        } else {
            self.data[0].len()
        }
    }

    /// The length of one row of the grid.
    pub fn row_len(&self, row: usize) -> (r: usize)
        requires
            row < self@.data.len(),
        ensures
            r as int == self@.data[row as int].len(),
    {
        self.data[row].len()
    }

    /// The pixel at a given row and column of the grid.
    pub fn pixel(&self, row: usize, col: usize) -> (c: Color)
        requires
            row < self@.data.len(),
            col < self@.data[row as int].len(),
        ensures
            c == self@.data[row as int][col as int],
    {
        self.data[row][col]
    }

    /// On-screen width: columns times scale.
    pub fn width(&self) -> (w: i32)
        requires
            self@.scale * (if self@.data.len() == 0 {
                0
            } else {
                self@.data[0].len()
            }) <= i32::MAX,
        ensures
            w == self@.scale * (if self@.data.len() == 0 {
                0
            } else {
                self@.data[0].len()
            }),
    {
        proof {
            use_type_invariant(self);
        }
        if self.data.len() == 0 {
            0
        } else {
            let n = self.data[0].len();
            proof {
                assert(n <= i32::MAX && 0 <= self@.scale * n <= i32::MAX) by (nonlinear_arith)
                    requires
                        self@.scale >= 1,
                        n == self@.data[0].len(),
                        self@.scale * self@.data[0].len() <= i32::MAX,
                ;
            }
            self.scale * (n as i32)
        }
    }

    /// On-screen height: rows times scale.
    pub fn height(&self) -> (h: i32)
        requires
            self@.scale * self@.data.len() <= i32::MAX,
        ensures
            h == self@.scale * self@.data.len(),
    {
        proof {
            use_type_invariant(self);
        }
        let n = self.data.len();
        proof {
            assert(n <= i32::MAX && 0 <= self@.scale * n <= i32::MAX) by (nonlinear_arith)
                requires
                    self@.scale >= 1,
                    n == self@.data.len(),
                    self@.scale * self@.data.len() <= i32::MAX,
            ;
        }
        self.scale * (n as i32)
    }

    /// Moves the sprite by the given offset; the pixel grid and scale are kept.
    pub fn translate(&self, dx: i32, dy: i32) -> (s: SpriteData)
        requires
            i32::MIN <= self@.x + dx <= i32::MAX,
            i32::MIN <= self@.y + dy <= i32::MAX,
        ensures
            s@ == (SpriteView {
                x: self@.x + dx,
                y: self@.y + dy,
                scale: self@.scale,
                data: self@.data,
            }),
    {
        proof {
            use_type_invariant(self);
        }
        SpriteData { x: self.x + dx, y: self.y + dy, scale: self.scale, data: clone_grid(&self.data) }
    }

    /// The color of the first visible pixel in row-major order, if any pixel
    /// of the grid is visible at all.
    pub fn find_visible_color(&self) -> (r: Option<Color>)
        ensures
            r is None <==> (forall|i: int, j: int|
                0 <= i < self@.data.len() && 0 <= j < self@.data[i].len()
                    ==> !(#[trigger] self@.data[i][j]).spec_is_visible()),
            r matches Some(c) ==> exists|i: int, j: int|
                {
                    &&& 0 <= i < self@.data.len()
                    &&& 0 <= j < self@.data[i].len()
                    &&& (#[trigger] self@.data[i][j]).spec_is_visible()
                    &&& c == self@.data[i][j]
                    &&& forall|i2: int, j2: int|
                        0 <= i2 < self@.data.len() && 0 <= j2 < self@.data[i2].len() && (i2 < i || (
                        i2 == i && j2 < j)) ==> !(#[trigger] self@.data[i2][j2]).spec_is_visible()
                },
    {
        let ghost v = self@.data;
        let mut i: usize = 0;
        while i < self.data.len()
            invariant
                v == self@.data,
                0 <= i <= v.len(),
                forall|i2: int, j2: int|
                    0 <= i2 < i && 0 <= j2 < v[i2].len()
                        ==> !(#[trigger] v[i2][j2]).spec_is_visible(),
            decreases v.len() - i,
        {
            let row = &self.data[i];
            let mut j: usize = 0;
            while j < row.len()
                invariant
                    v == self@.data,
                    0 <= i < v.len(),
                    row@ == v[i as int],
                    0 <= j <= row@.len(),
                    forall|i2: int, j2: int|
                        0 <= i2 < i && 0 <= j2 < v[i2].len()
                            ==> !(#[trigger] v[i2][j2]).spec_is_visible(),
                    forall|j2: int| 0 <= j2 < j ==> !(#[trigger] v[i as int][j2]).spec_is_visible(),
                decreases row@.len() - j,
            {
                let c = row[j];
                if c.is_visible() {
                    return Some(c);
                }
                j += 1;
            }
            i += 1;
        }
        None
    }
}

/// Copies a pixel grid row by row; the copy has the same view.
fn clone_grid(data: &Vec<Vec<Color>>) -> (r: Vec<Vec<Color>>)
    ensures
        grid_view(r@) == grid_view(data@),
{
    let mut out: Vec<Vec<Color>> = Vec::new();
    let mut i: usize = 0;
    while i < data.len()
        invariant
            0 <= i <= data@.len(),
            out@.len() == i,
            forall|k: int| 0 <= k < i ==> #[trigger] out@[k]@ == data@[k]@,
        decreases data@.len() - i,
    {
        let src = &data[i];
        let mut row: Vec<Color> = Vec::new();
        let mut j: usize = 0;
        while j < src.len()
            invariant
                0 <= j <= src@.len(),
                row@ == src@.subrange(0, j as int),
            decreases src@.len() - j,
        {
            row.push(src[j]);
            proof {
                assert(row@ =~= src@.subrange(0, j + 1));
            }
            j += 1;
        }
        proof {
            assert(row@ =~= src@);
        }
        out.push(row);
        i += 1;
    }
    proof {
        assert(grid_view(out@) =~= grid_view(data@));
    }
    out
}

impl Clone for SpriteData {
    /// A cloned sprite has the same position, scale and pixel content.
    fn clone(&self) -> (s: Self)
        ensures
            s@ == self@,
    {
        proof {
            use_type_invariant(self);
        }
        let s = SpriteData {
            x: self.x,
            y: self.y,
            scale: self.scale,
            data: clone_grid(&self.data),
        };
        s
    }
}

/// A positioned-sprite instruction handed to the external renderer.
pub enum Drawable {
    Sprite(SpriteData),
}

/// The mathematical value of a draw command.
pub enum DrawableView {
    Sprite(SpriteView),
}

impl View for Drawable {
    type V = DrawableView;

    open spec fn view(&self) -> DrawableView {
        match self {
            Drawable::Sprite(s) => DrawableView::Sprite(s@),
        }
    }
}

} // verus!

//! The asset loader: parses the fixed-format text asset into digit glyphs.
//!
//! The asset is plain text made of blank-line-separated blocks. Every
//! non-blank line of a block is one pixel row; `'1'` marks an opaque white
//! pixel and `'.'` a fully transparent one. Blocks are stored in the asset in
//! descending digit order (9 down to 0).

use vstd::prelude::*;

use crate::sprite::Color;
use crate::sprite::SpriteData;
use crate::sprite::SpriteView;
use crate::sprite::grid_rectangular;
use crate::sprite::grid_view;

verus! {

/// The character marking an opaque (foreground) pixel.
pub const SET: char = '1';

/// The character marking a transparent (background) pixel.
pub const IGNORE: char = '.';

/// A malformed-asset failure, detected once at load time.
#[derive(Clone, Copy, PartialEq, Eq, Structural, Debug)]
pub enum AssetError {
    /// A block holds a character that is neither `SET` nor `IGNORE`;
    /// `row` and `col` locate the first such character within its block.
    BadChar { row: usize, col: usize, found: char },
    /// A block's rows do not all have the same length; `row` is the first
    /// row within the block whose length differs from the first row's.
    RaggedRow { row: usize },
    /// The asset does not hold exactly ten glyph blocks.
    WrongGlyphCount { found: usize },
    /// The glyph at catalog position `index` is not 8 pixels by 7 pixels.
    WrongGlyphSize { index: usize },
}

/// The characters allowed inside a glyph block.
pub open spec fn is_pixel_char(c: char) -> bool {
    c == SET || c == IGNORE
}

/// Horizontal whitespace; a line made only of these separates blocks.
pub open spec fn is_space_char(c: char) -> bool {
    c == ' ' || c == '\t' || c == '\r'
}

/// A line is blank when it is empty or all whitespace.
pub open spec fn is_blank_line(l: Seq<char>) -> bool {
    forall|i: int| 0 <= i < l.len() ==> is_space_char(#[trigger] l[i])
}

/// Every character of the line is a valid pixel character.
pub open spec fn line_ok(l: Seq<char>) -> bool {
    forall|i: int| 0 <= i < l.len() ==> is_pixel_char(#[trigger] l[i])
}

/// A block parses cleanly: only pixel characters, and rectangular.
pub open spec fn block_ok(b: Seq<Seq<char>>) -> bool {
    &&& forall|i: int| 0 <= i < b.len() ==> line_ok(#[trigger] b[i])
    &&& forall|i: int| 0 <= i < b.len() ==> (#[trigger] b[i]).len() == b[0].len()
}

/// The color a pixel character stands for.
pub open spec fn color_of_char(c: char) -> Color {
    if c == SET {
        Color { r: 255, g: 255, b: 255, a: 255 }
    } else {
        Color { r: 0, g: 0, b: 0, a: 0 }
    }
}

/// The pixel character a color serializes to.
pub open spec fn char_of_color(c: Color) -> char {
    if c.spec_is_visible() {
        SET
    } else {
        IGNORE
    }
}

/// One text line parsed into a row of pixel colors.
pub open spec fn row_of_line(l: Seq<char>) -> Seq<Color> {
    l.map_values(|c: char| color_of_char(c))
}

/// One block parsed into a glyph's pixel grid.
pub open spec fn glyph_of_block(b: Seq<Seq<char>>) -> Seq<Seq<Color>> {
    b.map_values(|l: Seq<char>| row_of_line(l))
}

/// One pixel row serialized back to a text line.
pub open spec fn line_of_row(r: Seq<Color>) -> Seq<char> {
    r.map_values(|c: Color| char_of_color(c))
}

/// A glyph's pixel grid serialized back to a block of text lines.
pub open spec fn block_of_glyph(g: Seq<Seq<Color>>) -> Seq<Seq<char>> {
    g.map_values(|r: Seq<Color>| line_of_row(r))
}

/// The views of a vector of borrowed text lines.
pub open spec fn lines_view(s: Seq<&str>) -> Seq<Seq<char>> {
    s.map_values(|l: &str| l@)
}

/// Position `(row, col)` holds the first invalid character of the block, in
/// row-major order.
pub open spec fn bad_char_at(b: Seq<Seq<char>>, row: int, col: int) -> bool {
    &&& 0 <= row < b.len()
    &&& 0 <= col < b[row].len()
    &&& !is_pixel_char(b[row][col])
    &&& forall|r2: int, c2: int|
        0 <= r2 < b.len() && 0 <= c2 < b[r2].len() && (r2 < row || (r2 == row && c2 < col))
            ==> is_pixel_char(#[trigger] b[r2][c2])
}

/// Row `row` is the first row of the block whose length differs from the
/// first row's.
pub open spec fn ragged_at(b: Seq<Seq<char>>, row: int) -> bool {
    &&& 0 <= row < b.len()
    &&& b[row].len() != b[0].len()
    &&& forall|r2: int| 0 <= r2 < row ==> (#[trigger] b[r2]).len() == b[0].len()
}

/// The error a malformed block gives rise to: the first bad character if one
/// exists, otherwise the first ragged row. Count and size errors never come
/// from a single block.
pub open spec fn block_error_ok(b: Seq<Seq<char>>, e: AssetError) -> bool {
    match e {
        AssetError::BadChar { row, col, found } => {
            &&& bad_char_at(b, row as int, col as int)
            &&& found == b[row as int][col as int]
        },
        AssetError::RaggedRow { row } => {
            &&& forall|i: int| 0 <= i < b.len() ==> line_ok(#[trigger] b[i])
            &&& ragged_at(b, row as int)
        },
        AssetError::WrongGlyphCount { .. } => false,
        AssetError::WrongGlyphSize { .. } => false,
    }
}

/// Parses one block of text lines into a sprite at the origin with scale 1.
///
/// Returns the glyph exactly when every character is a pixel character and
/// the rows form a rectangle; otherwise reports the first offense, bad
/// characters taking precedence over ragged rows.
pub fn load_sprite(lines: &Vec<&str>) -> (r: Result<SpriteData, AssetError>)
    requires
        lines@.len() > 0,
    ensures
        r is Ok <==> block_ok(lines_view(lines@)),
        r matches Ok(s) ==> s@ == (SpriteView {
            x: 0,
            y: 0,
            scale: 1,
            data: glyph_of_block(lines_view(lines@)),
        }),
        r matches Err(e) ==> block_error_ok(lines_view(lines@), e),
{
    let ghost b = lines_view(lines@);
    let mut pixels: Vec<Vec<Color>> = Vec::new();
    let mut i: usize = 0;
    while i < lines.len()
        invariant
            b == lines_view(lines@),
            0 <= i <= lines@.len(),
            pixels@.len() == i,
            forall|k: int| 0 <= k < i ==> line_ok(#[trigger] b[k]),
            forall|k: int| 0 <= k < i ==> (#[trigger] pixels@[k])@ == row_of_line(b[k]),
        decreases lines@.len() - i,
    {
        let line: &str = lines[i];
        let n = line.unicode_len();
        let mut row: Vec<Color> = Vec::new();
        let mut j: usize = 0;
        while j < n
            invariant
                b == lines_view(lines@),
                0 <= i < lines@.len(),
                line@ == b[i as int],
                n == line@.len(),
                0 <= j <= n,
                row@.len() == j,
                forall|k: int| 0 <= k < i ==> line_ok(#[trigger] b[k]),
                forall|k: int|
                    0 <= k < j ==> is_pixel_char(#[trigger] line@[k]) && row@[k] == color_of_char(
                        line@[k]),
            decreases n - j,
        {
            let c = line.get_char(j);
            if c == SET {
                row.push(Color::white());
            } else if c == IGNORE {
                row.push(Color::invisible());
            } else {
                proof {
                    assert(bad_char_at(b, i as int, j as int));
                }
                return Err(AssetError::BadChar { row: i, col: j, found: c });
            }
            j += 1;
        }
        proof {
            assert(row@ =~= row_of_line(b[i as int]));
        }
        pixels.push(row);
        i += 1;
    }
    let width = pixels[0].len();
    let mut k: usize = 1;
    while k < pixels.len()
        invariant
            b == lines_view(lines@),
            pixels@.len() == lines@.len() > 0,
            width == pixels@[0]@.len(),
            1 <= k <= pixels@.len(),
            forall|t: int| 0 <= t < pixels@.len() ==> line_ok(#[trigger] b[t]),
            forall|t: int| 0 <= t < pixels@.len() ==> (#[trigger] pixels@[t])@ == row_of_line(b[t]),
            forall|t: int| 0 <= t < k ==> (#[trigger] pixels@[t])@.len() == width,
        decreases pixels@.len() - k,
    {
        if pixels[k].len() != width {
            proof {
                assert(forall|t: int| 0 <= t < b.len() ==> (#[trigger] b[t]).len()
                    == pixels@[t]@.len());
                assert(ragged_at(b, k as int));
            }
            return Err(AssetError::RaggedRow { row: k });
        }
        k += 1;
    }
    proof {
        assert(forall|t: int| 0 <= t < b.len() ==> (#[trigger] b[t]).len() == pixels@[t]@.len());
        assert(grid_rectangular(grid_view(pixels@)));
        assert(grid_view(pixels@) =~= glyph_of_block(b));
        assert(block_ok(b));
    }
    Ok(SpriteData::new(pixels, 1))
}

/// A line with a trailing carriage return dropped, so that assets with
/// CRLF line endings parse like ones with bare newlines.
pub open spec fn strip_cr(l: Seq<char>) -> Seq<char> {
    if l.len() > 0 && l[l.len() - 1] == '\r' {
        l.subrange(0, l.len() - 1)
    } else {
        l
    }
}

/// Splits text into lines, processing it character by character: `cur` is
/// the part of the current line already seen. Lines end at `'\n'`; a final
/// line without a newline counts, a trailing newline adds no empty line.
pub open spec fn split_acc(s: Seq<char>, cur: Seq<char>) -> Seq<Seq<char>>
    decreases s.len(),
{
    if s.len() == 0 {
        if cur.len() > 0 {
            seq![strip_cr(cur)]
        } else {
            seq![]
        }
    } else if s[0] == '\n' {
        seq![strip_cr(cur)] + split_acc(s.drop_first(), seq![])
    } else {
        split_acc(s.drop_first(), cur.push(s[0]))
    }
}

/// The lines of a text.
pub open spec fn split_lines(s: Seq<char>) -> Seq<Seq<char>> {
    split_acc(s, seq![])
}

/// Groups lines into blocks, processing them one by one: `cur` is the block
/// being gathered. A blank line ends the block in hand, if any; blank lines
/// elsewhere (leading, trailing, repeated) are skipped.
pub open spec fn group_acc(ls: Seq<Seq<char>>, cur: Seq<Seq<char>>) -> Seq<Seq<Seq<char>>>
    decreases ls.len(),
{
    if ls.len() == 0 {
        if cur.len() > 0 {
            seq![cur]
        } else {
            seq![]
        }
    } else if is_blank_line(ls[0]) {
        if cur.len() > 0 {
            seq![cur] + group_acc(ls.drop_first(), seq![])
        } else {
            group_acc(ls.drop_first(), seq![])
        }
    } else {
        group_acc(ls.drop_first(), cur.push(ls[0]))
    }
}

/// The glyph blocks of a text: its lines grouped between blank lines.
pub open spec fn blocks_of(s: Seq<char>) -> Seq<Seq<Seq<char>>> {
    group_acc(split_lines(s), seq![])
}

/// Block `k` is the first block of the sequence that does not parse cleanly.
pub open spec fn first_bad_block(bs: Seq<Seq<Seq<char>>>, k: int) -> bool {
    &&& 0 <= k < bs.len()
    &&& !block_ok(bs[k])
    &&& forall|k2: int| 0 <= k2 < k ==> block_ok(#[trigger] bs[k2])
}

/// Whether a line is blank (empty or all horizontal whitespace).
fn is_blank(line: &str) -> (r: bool)
    ensures
        r == is_blank_line(line@),
{
    let n = line.unicode_len();
    let mut j: usize = 0;
    while j < n
        invariant
            n == line@.len(),
            0 <= j <= n,
            forall|k: int| 0 <= k < j ==> is_space_char(#[trigger] line@[k]),
        decreases n - j,
    {
        let c = line.get_char(j);
        if !(c == ' ' || c == '\t' || c == '\r') {
            return false;
        }
        j += 1;
    }
    true
}

/// Splits a text into its lines, dropping a carriage return at each line end.
fn split_text_lines(text: &str) -> (r: Vec<&str>)
    ensures
        lines_view(r@) == split_lines(text@),
{
    let n = text.unicode_len();
    let mut lines: Vec<&str> = Vec::new();
    let mut start: usize = 0;
    let mut i: usize = 0;
    proof {
        assert(text@.subrange(0, n as int) =~= text@);
        assert(text@.subrange(0, 0) =~= Seq::<char>::empty());
        assert(lines_view(lines@) + split_acc(text@, Seq::<char>::empty()) =~= split_acc(
            text@,
            Seq::<char>::empty(),
        ));
    }
    while i < n
        invariant
            n == text@.len(),
            0 <= start <= i <= n,
            split_lines(text@) == lines_view(lines@) + split_acc(
                text@.subrange(i as int, n as int),
                text@.subrange(start as int, i as int),
            ),
        decreases n - i,
    {
        let ghost rest = text@.subrange(i as int, n as int);
        let ghost rest2 = text@.subrange(i + 1, n as int);
        let ghost cur = text@.subrange(start as int, i as int);
        let c = text.get_char(i);
        proof {
            assert(rest.len() > 0 && rest[0] == text@[i as int]);
            assert(rest.drop_first() =~= rest2);
        }
        if c == '\n' {
            let line = cut_line(text, start, i);
            proof {
                assert(split_acc(rest, cur) == seq![strip_cr(cur)] + split_acc(
                    rest2,
                    Seq::<char>::empty(),
                ));
                assert(text@.subrange(i + 1, i + 1) =~= Seq::<char>::empty());
                assert(lines_view(lines@.push(line)) =~= lines_view(lines@) + seq![
                    strip_cr(cur),
                ]);
                assert(lines_view(lines@) + (seq![strip_cr(cur)] + split_acc(
                    rest2,
                    Seq::<char>::empty(),
                )) =~= (lines_view(lines@) + seq![strip_cr(cur)]) + split_acc(
                    rest2,
                    Seq::<char>::empty(),
                ));
            }
            lines.push(line);
            start = i + 1;
        } else {
            proof {
                assert(cur.push(text@[i as int]) =~= text@.subrange(start as int, i + 1));
                assert(split_acc(rest, cur) == split_acc(rest2, cur.push(text@[i as int])));
            }
        }
        i += 1;
    }
    let ghost cur = text@.subrange(start as int, n as int);
    proof {
        assert(text@.subrange(n as int, n as int) =~= Seq::<char>::empty());
    }
    if start < n {
        let line = cut_line(text, start, n);
        proof {
            assert(cur.len() > 0);
            assert(split_acc(Seq::<char>::empty(), cur) == seq![strip_cr(cur)]);
            assert(lines_view(lines@.push(line)) =~= lines_view(lines@) + seq![strip_cr(cur)]);
        }
        lines.push(line);
    } else {
        proof {
            assert(cur.len() == 0);
            assert(split_acc(Seq::<char>::empty(), cur) == Seq::<Seq<char>>::empty());
            assert(lines_view(lines@) + Seq::<Seq<char>>::empty() =~= lines_view(lines@));
        }
    }
    lines
}

/// Parses a whole asset text into sprites, one per glyph block.
///
/// The text is split into lines and the lines into blank-line-separated
/// blocks; each block becomes one sprite. The asset stores blocks in
/// descending digit order, so the parsed sequence is reversed: sprite `k` of
/// the result comes from block `len - 1 - k` of the text. The first
/// malformed block, if any, is reported instead.
pub fn load_digit_sprites(text: &str) -> (r: Result<Vec<SpriteData>, AssetError>)
    ensures
        r is Ok <==> (forall|k: int|
            0 <= k < blocks_of(text@).len() ==> block_ok(#[trigger] blocks_of(text@)[k])),
        r matches Ok(v) ==> {
            &&& v@.len() == blocks_of(text@).len()
            &&& forall|k: int|
                0 <= k < v@.len() ==> (#[trigger] v@[k])@ == (SpriteView {
                    x: 0,
                    y: 0,
                    scale: 1,
                    data: glyph_of_block(blocks_of(text@)[blocks_of(text@).len() - 1 - k]),
                })
        },
        r matches Err(e) ==> exists|k: int|
            #[trigger] first_bad_block(blocks_of(text@), k) && block_error_ok(
                blocks_of(text@)[k],
                e,
            ),
{
    let lines = split_text_lines(text);
    let ghost ls = split_lines(text@);
    let ghost bs = blocks_of(text@);
    let mut sprites: Vec<SpriteData> = Vec::new();
    let mut current: Vec<&str> = Vec::new();
    let ghost mut done: Seq<Seq<Seq<char>>> = seq![];
    let mut k: usize = 0;
    proof {
        assert(ls.subrange(0, ls.len() as int) =~= ls);
        assert(lines_view(current@) =~= Seq::<Seq<char>>::empty());
        assert(done + group_acc(ls, Seq::<Seq<char>>::empty()) =~= group_acc(
            ls,
            Seq::<Seq<char>>::empty(),
        ));
    }
    while k < lines.len()
        invariant
            lines_view(lines@) == ls,
            0 <= k <= lines@.len(),
            bs == blocks_of(text@),
            bs == done + group_acc(
                ls.subrange(k as int, ls.len() as int),
                lines_view(current@),
            ),
            sprites@.len() == done.len(),
            forall|t: int| 0 <= t < done.len() ==> block_ok(#[trigger] done[t]),
            forall|t: int|
                0 <= t < done.len() ==> (#[trigger] sprites@[t])@ == (SpriteView {
                    x: 0,
                    y: 0,
                    scale: 1,
                    data: glyph_of_block(done[t]),
                }),
        decreases lines@.len() - k,
    {
        let ghost rest = ls.subrange(k as int, ls.len() as int);
        let ghost rest2 = ls.subrange(k + 1, ls.len() as int);
        let ghost cur = lines_view(current@);
        let line: &str = lines[k];
        proof {
            assert(rest.len() > 0 && rest[0] == ls[k as int]);
            assert(ls[k as int] == line@);
            assert(rest.drop_first() =~= rest2);
        }
        if is_blank(line) {
            if current.len() > 0 {
                proof {
                    assert(group_acc(rest, cur) == seq![cur] + group_acc(
                        rest2,
                        Seq::<Seq<char>>::empty(),
                    ));
                    assert(bs[done.len() as int] == cur);
                }
                match load_sprite(&current) {
                    Ok(s) => {
                        sprites.push(s);
                        current = Vec::new();
                        proof {
                            done = done + seq![cur];
                            assert(lines_view(current@) =~= Seq::<Seq<char>>::empty());
                            assert((done.drop_last() + seq![cur]) + group_acc(
                                rest2,
                                Seq::<Seq<char>>::empty(),
                            ) =~= done.drop_last() + (seq![cur] + group_acc(
                                rest2,
                                Seq::<Seq<char>>::empty(),
                            )));
                        }
                    },
                    Err(e) => {
                        proof {
                            assert(first_bad_block(bs, done.len() as int));
                        }
                        return Err(e);
                    },
                }
            } else {
                proof {
                    assert(cur.len() == 0);
                    assert(group_acc(rest, cur) == group_acc(rest2, Seq::<Seq<char>>::empty()));
                    assert(lines_view(current@) =~= Seq::<Seq<char>>::empty());
                }
            }
        } else {
            proof {
                assert(group_acc(rest, cur) == group_acc(rest2, cur.push(line@)));
            }
            current.push(line);
            proof {
                assert(lines_view(current@) =~= cur.push(line@));
            }
        }
        k += 1;
    }
    let ghost cur = lines_view(current@);
    proof {
        assert(ls.subrange(ls.len() as int, ls.len() as int) =~= Seq::<Seq<char>>::empty());
    }
    if current.len() > 0 {
        proof {
            assert(group_acc(Seq::<Seq<char>>::empty(), cur) == seq![cur]);
            assert(bs[done.len() as int] == cur);
        }
        match load_sprite(&current) {
            Ok(s) => {
                sprites.push(s);
                proof {
                    done = done + seq![cur];
                    assert(bs =~= done);
                }
            },
            Err(e) => {
                proof {
                    assert(first_bad_block(bs, done.len() as int));
                }
                return Err(e);
            },
        }
    } else {
        proof {
            assert(group_acc(Seq::<Seq<char>>::empty(), cur) == Seq::<Seq<Seq<char>>>::empty());
            assert(bs =~= done);
        }
    }
    // The asset stores digit 9 first: reverse so that digit 0 is at index 0.
    let ghost parsed = sprites@;
    let total = sprites.len();
    let mut result: Vec<SpriteData> = Vec::new();
    proof {
        assert(parsed.subrange(0, parsed.len() as int) =~= parsed);
    }
    while sprites.len() > 0
        invariant
            parsed.len() == total,
            result@.len() + sprites@.len() == total,
            sprites@ == parsed.subrange(0, sprites@.len() as int),
            forall|t: int| 0 <= t < result@.len() ==> result@[t] == parsed[total - 1 - t],
        decreases sprites@.len(),
    {
        let ghost before = sprites@;
        let s_opt = sprites.pop();
        let s = s_opt.unwrap();
        proof {
            assert(before.drop_last() =~= parsed.subrange(0, before.len() - 1));
            assert(s == parsed[before.len() - 1]);
        }
        result.push(s);
    }
    proof {
        assert(forall|t: int|
            0 <= t < result@.len() ==> (#[trigger] result@[t])@ == (SpriteView {
                x: 0,
                y: 0,
                scale: 1,
                data: glyph_of_block(bs[bs.len() - 1 - t]),
            }));
    }
    Ok(result)
}

/// Serializes a sprite's pixel grid back to text lines: each visible pixel
/// becomes `SET`, each transparent one `IGNORE`.
pub fn serialize_sprite(sprite: &SpriteData) -> (r: Vec<Vec<char>>)
    ensures
        lines_of_rows(r@) == block_of_glyph(sprite@.data),
{
    let ghost g = sprite@.data;
    let mut out: Vec<Vec<char>> = Vec::new();
    let n = sprite.n_rows();
    let mut i: usize = 0;
    while i < n
        invariant
            g == sprite@.data,
            n == g.len(),
            0 <= i <= n,
            out@.len() == i,
            forall|k: int| 0 <= k < i ==> (#[trigger] out@[k])@ == line_of_row(g[k]),
        decreases n - i,
    {
        let mut line: Vec<char> = Vec::new();
        let m = sprite.row_len(i);
        let mut j: usize = 0;
        while j < m
            invariant
                g == sprite@.data,
                0 <= i < g.len(),
                m == g[i as int].len(),
                0 <= j <= m,
                line@.len() == j,
                forall|k: int| 0 <= k < j ==> line@[k] == char_of_color(g[i as int][k]),
            decreases m - j,
        {
            let c = sprite.pixel(i, j);
            if c.is_visible() {
                line.push(SET);
            } else {
                line.push(IGNORE);
            }
            j += 1;
        }
        proof {
            assert(line@ =~= line_of_row(g[i as int]));
        }
        out.push(line);
        i += 1;
    }
    proof {
        assert(lines_of_rows(out@) =~= block_of_glyph(g));
    }
    out
}

/// The views of a vector of character-row lines.
pub open spec fn lines_of_rows(s: Seq<Vec<char>>) -> Seq<Seq<char>> {
    s.map_values(|l: Vec<char>| l@)
}

/// Parsing a clean block and serializing the glyph again reproduces the
/// block's character grid exactly.
pub proof fn lemma_parse_serialize_round_trip(b: Seq<Seq<char>>)
    requires
        forall|i: int| 0 <= i < b.len() ==> line_ok(#[trigger] b[i]),
    ensures
        block_of_glyph(glyph_of_block(b)) == b,
{
    assert forall|i: int| 0 <= i < b.len() implies #[trigger] block_of_glyph(glyph_of_block(b))[i]
        == b[i] by {
        assert(glyph_of_block(b)[i] == row_of_line(b[i]));
        assert forall|j: int| 0 <= j < b[i].len() implies #[trigger] line_of_row(
            row_of_line(b[i]),
        )[j] == b[i][j] by {
            assert(is_pixel_char(b[i][j]));
            assert(row_of_line(b[i])[j] == color_of_char(b[i][j]));
        }
        assert(line_of_row(row_of_line(b[i])) =~= b[i]);
    }
    assert(block_of_glyph(glyph_of_block(b)) =~= b);
}

/// One line of the text, as the characters from `start` up to `end` with a
/// trailing carriage return dropped.
fn cut_line(text: &str, start: usize, end: usize) -> (r: &str)
    requires
        0 <= start <= end <= text@.len(),
    ensures
        r@ == strip_cr(text@.subrange(start as int, end as int)),
{
    let line = text.substring_char(start, end);
    let llen = line.unicode_len();
    if llen > 0 && line.get_char(llen - 1) == '\r' {
        let cut = text.substring_char(start, end - 1);
        proof {
            assert(cut@ =~= strip_cr(text@.subrange(start as int, end as int)));
        }
        cut
    } else {
        line
    }
}

} // verus!

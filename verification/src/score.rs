//! The score renderer: lays out a score as a right-aligned row of glyphs.

use vstd::prelude::*;

use crate::catalog::DIGIT_WIDTH;
use crate::catalog::DigitCatalog;
use crate::sprite::Drawable;
use crate::sprite::DrawableView;
use crate::sprite::SpriteView;

verus! {

/// The decimal digits of a number, least significant first; zero is the
/// single digit 0.
pub open spec fn spec_digits(n: nat) -> Seq<nat>
    decreases n,
{
    if n < 10 {
        seq![n]
    } else {
        seq![n % 10] + spec_digits(n / 10)
    }
}

/// The score actually displayed: negative scores are clamped to zero.
pub open spec fn clamped_score(score: i32) -> nat {
    if score < 0 {
        0
    } else {
        score as nat
    }
}

/// Powers of ten.
pub open spec fn pow10(k: nat) -> nat
    decreases k,
{
    if k == 0 {
        1
    } else {
        10 * pow10((k - 1) as nat)
    }
}

/// A number below the `k`-th power of ten has at most `k` decimal digits.
proof fn lemma_digits_len_le(n: nat, k: nat)
    requires
        k >= 1,
        n < pow10(k),
    ensures
        spec_digits(n).len() <= k,
    decreases k,
{
    if n < 10 {
    } else {
        assert(pow10(k) == 10 * pow10((k - 1) as nat));
        assert(n / 10 < pow10((k - 1) as nat)) by (nonlinear_arith)
            requires
                n < 10 * pow10((k - 1) as nat),
                n >= 10,
        ;
        assert(k >= 2) by {
            if k == 1 {
                assert(pow10(1nat) == 10);
            }
        }
        lemma_digits_len_le(n / 10, (k - 1) as nat);
    }
}

/// Every value an `i32` score clamps to has at most ten decimal digits, and
/// at least one.
proof fn lemma_score_digit_count(n: nat)
    requires
        n <= i32::MAX,
    ensures
        1 <= spec_digits(n).len() <= 10,
{
    reveal_with_fuel(pow10, 11);
    assert(pow10(10) == 10_000_000_000);
    lemma_digits_len_le(n, 10);
}

/// Converts a score into draw commands, one per decimal digit of the
/// clamped score, least significant digit first. Digit `p` (counted from
/// the right) is placed at `(x - p * DIGIT_WIDTH, y)`, so the row is
/// right-aligned at the anchor `(x, y)`, the anchor being the top-right
/// corner of the rendered number. A negative score renders as the single
/// digit zero.
pub fn draw_score(catalog: &DigitCatalog, score: i32, x: i32, y: i32) -> (r: Vec<Drawable>)
    requires
        x >= i32::MIN + 9 * DIGIT_WIDTH,
    ensures
        r@.len() == spec_digits(clamped_score(score)).len(),
        forall|p: int|
            0 <= p < r@.len() ==> (#[trigger] r@[p])@ == DrawableView::Sprite(
                SpriteView {
                    x: x - p * DIGIT_WIDTH,
                    y: y as int,
                    scale: 1,
                    data: catalog@[spec_digits(clamped_score(score))[p] as int],
                },
            ),
{
    let clamped: u32 = if score < 0 {
        0
    } else {
        score as u32
    };
    let ghost target = spec_digits(clamped_score(score));
    proof {
        lemma_score_digit_count(clamped as nat);
    }
    // Digits of the clamped score, least significant first.
    let mut digits: Vec<u32> = Vec::new();
    digits.push(clamped % 10);
    let mut n: u32 = clamped / 10;
    proof {
        assert(digits@.map_values(|d: u32| d as nat) =~= seq![(clamped % 10) as nat]);
        if clamped < 10 {
            assert(target =~= digits@.map_values(|d: u32| d as nat));
        } else {
            assert(target == seq![(clamped % 10) as nat] + spec_digits((clamped / 10) as nat));
            assert(target =~= digits@.map_values(|d: u32| d as nat) + spec_digits(n as nat));
        }
    }
    while n > 0
        invariant
            digits@.len() >= 1,
            digits@.len() + spec_digits(n as nat).len() <= target.len() + 1,
            target.len() <= 10,
            forall|t: int| 0 <= t < digits@.len() ==> #[trigger] digits@[t] < 10,
            n > 0 ==> target == digits@.map_values(|d: u32| d as nat) + spec_digits(n as nat),
            n == 0 ==> target == digits@.map_values(|d: u32| d as nat),
        decreases n,
    {
        let ghost before = digits@;
        digits.push(n % 10);
        proof {
            assert(digits@.map_values(|d: u32| d as nat) =~= before.map_values(|d: u32| d as nat)
                + seq![(n % 10) as nat]);
            if n < 10 {
                assert(spec_digits(n as nat) == seq![n as nat]);
                assert(target =~= digits@.map_values(|d: u32| d as nat));
            } else {
                assert(spec_digits(n as nat) == seq![(n % 10) as nat] + spec_digits(
                    (n / 10) as nat,
                ));
                assert(target =~= digits@.map_values(|d: u32| d as nat) + spec_digits(
                    (n / 10) as nat,
                ));
            }
        }
        n = n / 10;
    }
    proof {
        assert(target == digits@.map_values(|d: u32| d as nat));
    }
    // One positioned glyph per digit, growing leftward from the anchor.
    let mut commands: Vec<Drawable> = Vec::new();
    let mut p: usize = 0;
    while p < digits.len()
        invariant
            target == digits@.map_values(|d: u32| d as nat),
            digits@.len() <= 10,
            forall|t: int| 0 <= t < digits@.len() ==> #[trigger] digits@[t] < 10,
            x >= i32::MIN + 9 * DIGIT_WIDTH,
            0 <= p <= digits@.len(),
            commands@.len() == p,
            forall|t: int|
                0 <= t < p ==> (#[trigger] commands@[t])@ == DrawableView::Sprite(
                    SpriteView {
                        x: x - t * DIGIT_WIDTH,
                        y: y as int,
                        scale: 1,
                        data: catalog@[target[t] as int],
                    },
                ),
        decreases digits@.len() - p,
    {
        let digit = digits[p];
        let sprite = catalog.get_sprite(digit);
        let px = x - (p as i32) * DIGIT_WIDTH;
        let placed = sprite.translate(px, y);
        commands.push(Drawable::Sprite(placed));
        p += 1;
    }
    commands
}

} // verus!

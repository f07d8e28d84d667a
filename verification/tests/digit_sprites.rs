use digit_sprites::AssetError;
use digit_sprites::Color;
use digit_sprites::DigitCatalog;
use digit_sprites::Drawable;
use digit_sprites::SpriteData;
use digit_sprites::catalog::DIGIT_HEIGHT;
use digit_sprites::catalog::DIGIT_WIDTH;
use digit_sprites::catalog::RAW_NUMBER_DATA;
use digit_sprites::loader::load_digit_sprites;
use digit_sprites::loader::load_sprite;
use digit_sprites::loader::serialize_sprite;
use digit_sprites::score::draw_score;

fn grid_of(sprite: &SpriteData) -> Vec<String> {
    serialize_sprite(sprite)
        .into_iter()
        .map(|row| row.into_iter().collect())
        .collect()
}

fn catalog() -> DigitCatalog {
    DigitCatalog::load().expect("the bundled asset parses")
}

#[test]
pub fn test_we_have_10_fixed_size_digits() {
    let catalog = catalog();
    for digit in 0..10 {
        let sprite = catalog.get_sprite(digit);
        assert_eq!(sprite.width(), DIGIT_WIDTH);
        assert_eq!(sprite.height(), DIGIT_HEIGHT);
        assert_eq!(sprite.find_visible_color().unwrap(), Color::white());
    }
}

#[test]
fn round_trip_reproduces_the_asset() {
    let sprites = load_digit_sprites(RAW_NUMBER_DATA).expect("the bundled asset parses");
    let mut blocks: Vec<Vec<String>> = Vec::new();
    let mut current: Vec<String> = Vec::new();
    for line in RAW_NUMBER_DATA.lines() {
        if line.trim().is_empty() {
            if !current.is_empty() {
                blocks.push(current.clone());
                current.clear();
            }
        } else {
            current.push(line.to_string());
        }
    }
    if !current.is_empty() {
        blocks.push(current);
    }
    assert_eq!(sprites.len(), blocks.len());
    for (k, sprite) in sprites.iter().enumerate() {
        // sprite k came from block len - 1 - k: the catalog is ascending.
        assert_eq!(grid_of(sprite), blocks[blocks.len() - 1 - k]);
    }
}

fn command_parts(d: &Drawable) -> (i32, i32, Vec<String>) {
    match d {
        Drawable::Sprite(s) => (s.x(), s.y(), grid_of(s)),
    }
}

#[test]
fn draw_score_zero_is_one_command_at_the_anchor() {
    let c = catalog();
    let commands = draw_score(&c, 0, 37, 21);
    assert_eq!(commands.len(), 1);
    let (x, y, grid) = command_parts(&commands[0]);
    assert_eq!((x, y), (37, 21));
    assert_eq!(grid, grid_of(&c.get_sprite(0)));
}

#[test]
fn draw_score_42_lays_out_two_digits() {
    let c = catalog();
    let commands = draw_score(&c, 42, 100, 50);
    assert_eq!(commands.len(), 2);
    let (x0, y0, g0) = command_parts(&commands[0]);
    assert_eq!((x0, y0), (100, 50));
    assert_eq!(g0, grid_of(&c.get_sprite(2)));
    let (x1, y1, g1) = command_parts(&commands[1]);
    assert_eq!((x1, y1), (100 - 8, 50));
    assert_eq!(g1, grid_of(&c.get_sprite(4)));
}

#[test]
fn draw_score_negative_is_clamped_to_zero() {
    let c = catalog();
    let negative: Vec<_> = draw_score(&c, -5, 64, 12).iter().map(command_parts).collect();
    let zero: Vec<_> = draw_score(&c, 0, 64, 12).iter().map(command_parts).collect();
    assert_eq!(negative, zero);
}

#[test]
fn draw_score_100_emits_least_significant_first() {
    let c = catalog();
    let commands = draw_score(&c, 100, 30, 5);
    assert_eq!(commands.len(), 3);
    let parts: Vec<_> = commands.iter().map(command_parts).collect();
    assert_eq!(parts[0].0, 30);
    assert_eq!(parts[1].0, 30 - 8);
    assert_eq!(parts[2].0, 30 - 16);
    assert_eq!(parts[0].2, grid_of(&c.get_sprite(0)));
    assert_eq!(parts[1].2, grid_of(&c.get_sprite(0)));
    assert_eq!(parts[2].2, grid_of(&c.get_sprite(1)));
}

#[test]
fn repeated_lookups_return_identical_glyphs() {
    let c = catalog();
    for digit in 0..10 {
        let first = c.get_sprite(digit);
        let second = c.get_sprite(digit);
        assert_eq!(grid_of(&first), grid_of(&second));
        assert_eq!((first.x(), first.y()), (second.x(), second.y()));
    }
}

#[test]
fn bad_character_is_reported_with_its_position() {
    let r = load_digit_sprites("11x1\n1111");
    assert_eq!(r.unwrap_err(), AssetError::BadChar { row: 0, col: 2, found: 'x' });
}

#[test]
fn bad_character_takes_precedence_over_ragged_rows() {
    let lines = vec!["1.", "1", "1z"];
    let r = load_sprite(&lines);
    assert_eq!(r.unwrap_err(), AssetError::BadChar { row: 2, col: 1, found: 'z' });
}

#[test]
fn ragged_rows_are_reported_with_the_first_offending_row() {
    let r = load_digit_sprites("111\n111\n11\n");
    assert_eq!(r.unwrap_err(), AssetError::RaggedRow { row: 2 });
}

#[test]
fn wrong_block_count_is_a_load_error() {
    let sprites = load_digit_sprites("11\n\n11\n").unwrap();
    assert_eq!(sprites.len(), 2);
    let r = DigitCatalog::from_sprites(sprites);
    assert_eq!(r.unwrap_err(), AssetError::WrongGlyphCount { found: 2 });
}

#[test]
fn wrong_glyph_size_is_a_load_error() {
    let text = "1\n\n1\n\n1\n\n1\n\n1\n\n1\n\n1\n\n1\n\n1\n\n1\n";
    let sprites = load_digit_sprites(text).unwrap();
    assert_eq!(sprites.len(), 10);
    let r = DigitCatalog::from_sprites(sprites);
    assert_eq!(r.unwrap_err(), AssetError::WrongGlyphSize { index: 0 });
}

#[test]
fn blank_lines_around_and_between_blocks_are_tolerated() {
    let text = "\n  \n11\n..\n\n\n\t\n1.\n\n";
    let sprites = load_digit_sprites(text).unwrap();
    assert_eq!(sprites.len(), 2);
    // Reversed: the last block of the text is first in the result.
    assert_eq!(grid_of(&sprites[0]), vec!["1.".to_string()]);
    assert_eq!(grid_of(&sprites[1]), vec!["11".to_string(), "..".to_string()]);
}

#[test]
fn crlf_line_endings_parse_like_bare_newlines() {
    let sprites = load_digit_sprites("11\r\n1.\r\n\r\n.1\r\n").unwrap();
    assert_eq!(sprites.len(), 2);
    assert_eq!(grid_of(&sprites[0]), vec![".1".to_string()]);
    assert_eq!(grid_of(&sprites[1]), vec!["11".to_string(), "1.".to_string()]);
}

#[test]
fn load_sprite_maps_characters_to_colors() {
    let lines = vec!["1.", ".1"];
    let sprite = load_sprite(&lines).unwrap();
    assert_eq!(sprite.width(), 2);
    assert_eq!(sprite.height(), 2);
    assert!(sprite.pixel(0, 0).is_visible());
    assert!(!sprite.pixel(0, 1).is_visible());
    assert!(!sprite.pixel(1, 0).is_visible());
    assert!(sprite.pixel(1, 1).is_visible());
    assert_eq!(sprite.pixel(0, 0), Color::white());
    assert_eq!(sprite.pixel(0, 1), Color::invisible());
    assert_eq!(grid_of(&sprite), vec!["1.".to_string(), ".1".to_string()]);
}

#[test]
fn translate_moves_a_sprite_and_keeps_its_pixels() {
    let lines = vec!["11"];
    let sprite = load_sprite(&lines).unwrap();
    let moved = sprite.translate(-3, 9);
    assert_eq!((moved.x(), moved.y()), (-3, 9));
    let again = moved.translate(1, 1);
    assert_eq!((again.x(), again.y()), (-2, 10));
    assert_eq!(grid_of(&again), grid_of(&sprite));
}

#[test]
fn find_visible_color_sees_through_transparent_pixels() {
    let lines = vec!["..", ".."];
    let sprite = load_sprite(&lines).unwrap();
    assert_eq!(sprite.find_visible_color(), None);
    let lines2 = vec!["..", ".1"];
    let sprite2 = load_sprite(&lines2).unwrap();
    assert_eq!(sprite2.find_visible_color(), Some(Color::white()));
}

//! Digit sprite rendering: parses a fixed-format text asset into a catalog of
//! ten digit glyphs and lays out a numeric score as positioned draw commands.

pub mod catalog;
pub mod loader;
pub mod score;
pub mod sprite;

pub use catalog::DigitCatalog;
pub use loader::AssetError;

pub use sprite::Color;
pub use sprite::Drawable;
pub use sprite::DrawableView;
pub use sprite::SpriteData;
pub use sprite::SpriteView;

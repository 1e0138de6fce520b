//! Extraction of province data from the text and bitmap files of a map.
//!
//! The text format is made of `key = value` pairs, brace blocks and `#`
//! comments. [`parse_state_provinces`] walks it to the list of provinces of
//! a state; [`parse_province_definitions`] reads the flat table that gives
//! each colour of the region bitmap its province; [`parse_region_image`]
//! decodes that bitmap.
//!
//! What each function returns is stated in its contract, over sequences of
//! characters and maps, and proved of its code.

pub mod bitmap;
pub mod block;
pub mod comments;
pub mod definitions;
pub mod error;
pub mod extract;
pub mod integers;
pub mod keyvalue;
pub mod text;

pub use bitmap::{parse_region_image, ImageLoadError, MapImage};
pub use block::block;
pub use comments::strip_comments;
pub use definitions::{parse_province_definitions, DefinitionTable};
pub use error::{ExtractError, FormatError};
pub use extract::parse_state_provinces;
pub use integers::parse_array_u32;
pub use keyvalue::{parse_kv, KeyValueMap};

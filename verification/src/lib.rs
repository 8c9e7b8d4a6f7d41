//! Song lyric markup: translation of a parsed document into a typed song, and the
//! search for a font size at which the song fits its page.

pub mod error;
pub mod fit;
pub mod formatting;
pub mod indent;
pub mod layout;
pub mod metadata;
pub mod model;
pub mod parse;
pub mod syntax;
pub mod text;
pub mod translate;
pub mod verse;

pub use crate::error::{Error, ErrorKind, TranslationError};
pub use crate::fit::{Fit, Fitted, Step, classify, find_fit, fit_and_render, next_step};
pub use crate::formatting::{add_formatted_text, tr_formatted_text};
pub use crate::indent::normalize_indents;
pub use crate::layout::{
    LayoutConfig, LayoutError, Maximum, PagePlan, Point, Size, VerseSizes, VersePlan,
    layout_lines, layout_verse, layout_verses,
};
pub use crate::metadata::{tr_meta_block, tr_meta_entry};
pub use crate::model::{
    FormattedText, Heading, LabelStyle, Metadata, Song, Span, Style, Verse, verse_lines,
    verse_lines_mut,
};
pub use crate::parse::{Flaw, ParseError, items_read_back, parse_song, write_items};
pub use crate::syntax::{Item, Line, Sexp, items_to_text};
pub use crate::text::{str_eq, str_is_whitespace, white_space_known};
pub use crate::translate::{ReadError, read_song, tr_song};
pub use crate::verse::{tr_line, tr_lines, tr_normal_verse, tr_verse};

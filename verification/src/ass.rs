//! ASS and SSA subtitles: reading them, and rewriting them with and without
//! embedded fonts.
pub mod draw;
pub mod draw_laws;
pub mod drawing_laws;
pub mod encoding;
pub mod file_laws;
pub mod font_laws;
pub mod fonts;
pub mod name_laws;
pub mod parse;
pub mod parse_laws;
pub mod rename_laws;
pub mod restore_laws;
pub mod restore_steps;
pub mod rewrite;
pub mod style;
pub mod tag_laws;
pub mod tags;
pub mod undo_laws;
pub mod usage;
pub mod uu;

pub use crate::split::strip_prefix_ci;
pub use draw::{
    drawing_level_from_tag, find_drawing_end, rewrite_drawings_as_font, rewrite_drawings_in_text,
    DrawRestoreEntry, DrawSubsetRewrite,
};
pub use encoding::{decode_subtitle, encode_subtitle, BomKind, DecodeError, DecodedSubtitle};
pub use fonts::{
    build_fonts_section, build_fonts_section_from_blocks, parse_embedded_fonts,
    parse_font_subset_comments, AssEmbeddedFont,
};
pub use parse::{detect_newline, parse_dialogue_text, parse_subtitle, ParsedSubtitle};
pub use rewrite::{
    is_restored_subset_comment, restore_draw_font_runs, rewrite_fn_tags, rewrite_strip_embedded,
    rewrite_style_line, rewrite_with_embedded_fonts,
};
pub use style::{
    is_system_font, norm_font, normalize_lookup_name, parse_boolish_style, slot_for_state, StyleInfo,
};
pub use tags::{apply_override_tags, read_tag_arg};
pub use usage::FontUsage;
pub use uu::{ass_uu_decode, ass_uu_encode, UuError};

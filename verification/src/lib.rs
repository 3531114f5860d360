//! Engraving stencils: the combinable drawing tree, SVG text escaping, and the
//! integer rules behind time-signature digits and rastal (paper) sizes.
mod escape;
mod rastal;
mod stencil;
mod svg;
mod time_sig;

pub use escape::{
    entity_at, escape, escaped, escaped_char, is_markup_char, lemma_escape_appends_entity,
    lemma_escape_injective, lemma_escape_keeps_plain_text, lemma_escaped_ampersands_begin_entities,
    lemma_escaped_concat, lemma_escaped_has_no_markup,
};
pub use rastal::{
    lemma_rastal_strictly_decreasing, lemma_rastal_table, rastal_height, rastal_staff_height,
};
pub use stencil::{
    holds_no_group, lemma_and_associative_parts, lemma_and_drawing_order, lemma_and_keeps_every_part,
    lemma_copy_of_plain_tree_is_equal, lemma_empty_is_neutral, CombineStencil, Stencil,
};
pub use svg::{
    all_without_newline, concat_all, has_no_newline, lemma_concat_all_append, lemma_concat_all_push,
    lemma_without_newlines_concat, lemma_without_newlines_has_none,
    lemma_without_newlines_keeps_one_line_text, lemma_without_newlines_push,
    string_views, svg_document, svg_group, svg_path_element, svg_text_element, svg_transformed,
    without_newlines,
};
pub use time_sig::{
    decimal_digits, digits_value, lemma_decimal_digits_round_trip,
    lemma_time_sig_digits_at_most_three, lemma_time_sig_digits_written_out, time_sig_digits,
};

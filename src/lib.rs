//! Compares the contents of several directories: files are grouped by the
//! digest of their bytes, and the groups are laid out as a text table with
//! one column per directory.

mod diff;
mod digest;
mod grouping;
mod order;
mod report;
mod text;

pub use diff::{
    differences, group_differs, lemma_differences_exact, retain_differences, same_names,
    shows_difference,
};
pub use digest::{
    digest_text, hex_char, hex_upper_of, lemma_same_content_same_group, sha256_of, ContentHasher,
    MAX_INPUT_BYTES,
};
pub use grouping::{
    entries_with, has_group, lemma_each_file_in_exactly_one_group, lemma_group_files_were_added,
    lemma_same_digest_same_group, passes_filter, passes_filter_spec, FileEntry, Group, Grouping,
};
pub use order::{
    bytes_le, lemma_bytes_le_total, lemma_bytes_le_trans, sort_by_digest, sorted_by_digest,
    text_le, text_le_exec,
};
pub use report::{
    arrange, cell_of, cell_text, column_of, digest_label, header_of, in_dir, label_of,
    render_header, render_row, render_table, row_cells, row_of, tab_join, tab_joined,
    DIGEST_WIDTH,
};
pub use text::{
    decimal, decimal_of, digit_char, fit_clusters, fitted, fixed_length, graphemes_of, joined,
    lemma_fitted_whole_clusters, views,
};

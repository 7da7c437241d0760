//! Resolution of the final, ordered list of bibliography entry keys for a
//! document: raw bibliography sources in mixed formats are merged into one
//! library, a citation style is resolved, an inclusion/order policy picks the
//! entries to submit, and the citation engine's rendered bibliography is read
//! back as a list of keys.

mod bib;
mod engine;
mod error;
mod policy;
mod resolve;
mod style;
mod textparse;

pub use bib::{
    SourceFormat, all_sources_parse, bibtex_keys, entry_key, lemma_merge_order_independent,
    library_key_seq, merge_sources, merged_keys, parse_source, source_key_lists, source_keys,
    structured_keys,
};
pub use error::ResolveError;
pub use resolve::{
    boundary_ok, call_accepted, call_decided_keys, cited_of, effective_formats,
    generate_bibliography, inputs_decodable, lemma_full_mode_covers_library,
    lemma_returned_order_is_cited, parse_format_tag, parse_style_format_tag, sorted_bib_keys,
    source_texts_of, spec_format_tag, spec_style_format_tag,
};
pub use style::{
    StyleFormat, StyleHandle, archive_lookup, archived_style_info, inline_style_info,
    resolve_style, style_has_bibliography, style_sort_defined, style_traits,
};
pub use policy::{
    PlannedCitation, all_cited_present, decided_keys, dedup_first, first_missing,
    lemma_dedup_first_membership, lemma_dedup_first_of_unique, lemma_document_order_authoritative,
    lemma_full_library_coverage, plan_citations, plan_keys,
};
pub use textparse::{
    contains_text, join_text, parse_bool_text, spec_join, spec_parse_bool, spec_split, split_text,
    str_eq, views_of,
};

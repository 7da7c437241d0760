//! The style resolver: an inline style definition is parsed directly, an
//! archive name is looked up in the bundled style archive. Only independent
//! (self-contained) styles are accepted; a dependent style, an unknown
//! name, and malformed style text are each a hard failure.

use vstd::prelude::*;
use crate::error::ResolveError;

verus! {

#[verifier::external_type_specification]
#[verifier::external_body]
pub struct ExIndependentStyle(hayagriva::citationberg::IndependentStyle);

#[verifier::external_type_specification]
#[verifier::external_body]
pub struct ExArchivedStyle(hayagriva::archive::ArchivedStyle);

/// Whether a style defines its own bibliography sort order. When it does,
/// the citation engine reorders the bibliography authoritatively; when it
/// does not, submission order is the only order.
pub uninterp spec fn style_sort_defined(st: hayagriva::citationberg::IndependentStyle) -> bool;

/// Whether a style defines a bibliography section at all. A style without
/// one produces citations only, and the engine returns no bibliography.
pub uninterp spec fn style_has_bibliography(
    st: hayagriva::citationberg::IndependentStyle,
) -> bool;

/// What parsing a text as an inline independent style yields: `None` when
/// the text is malformed, otherwise whether the style defines a sort and
/// whether it defines a bibliography.
pub uninterp spec fn inline_style_info(s: Seq<char>) -> Option<(bool, bool)>;

/// What looking a name up in the bundled style archive yields. The archive
/// is fixed, so the result is a function of the name alone.
pub uninterp spec fn archive_lookup(name: Seq<char>) -> Option<hayagriva::archive::ArchivedStyle>;

/// What retrieving an archived style yields: `None` when the archived style
/// is dependent, otherwise whether it defines a sort and whether it defines
/// a bibliography.
pub uninterp spec fn archived_style_info(a: hayagriva::archive::ArchivedStyle) -> Option<
    (bool, bool),
>;

/// Relies on citationberg's IndependentStyle::from_xml: parsing is a
/// function of the text alone; the sort flag reads the style's
/// bibliography sort rule and the bibliography flag its bibliography
/// section, the same fields the engine consults when it finishes.
#[verifier::external_body]
fn parse_inline_style(s: &str) -> (r: Option<
    (hayagriva::citationberg::IndependentStyle, bool, bool),
>)
    ensures
        r is Some <==> inline_style_info(s@) is Some,
        r matches Some(t) ==> inline_style_info(s@) == Some((t.1, t.2)),
        r matches Some(t) ==> t.1 == style_sort_defined(t.0) && t.2 == style_has_bibliography(
            t.0,
        ),
{
    match hayagriva::citationberg::IndependentStyle::from_xml(s) {
        Ok(st) => {
            let sorts = st.bibliography.as_ref().map(|b| b.sort.is_some()).unwrap_or(false);
            let has_bib = st.bibliography.is_some();
            Some((st, sorts, has_bib))
        },
        Err(_) => None,
    }
}

/// Relies on hayagriva's ArchivedStyle::by_name: the lookup in the bundled,
/// fixed archive is a function of the name alone.
#[verifier::external_body]
fn archive_find(name: &str) -> (r: Option<hayagriva::archive::ArchivedStyle>)
    ensures
        r == archive_lookup(name@),
{
    hayagriva::archive::ArchivedStyle::by_name(name)
}

/// Relies on hayagriva's ArchivedStyle::get: what an archived style holds
/// is fixed; an independent style is handed out with its sort and
/// bibliography flags, a dependent style is refused.
#[verifier::external_body]
fn archived_get(a: hayagriva::archive::ArchivedStyle) -> (r: Option<
    (hayagriva::citationberg::IndependentStyle, bool, bool),
>)
    ensures
        r is Some <==> archived_style_info(a) is Some,
        r matches Some(t) ==> archived_style_info(a) == Some((t.1, t.2)),
        r matches Some(t) ==> t.1 == style_sort_defined(t.0) && t.2 == style_has_bibliography(
            t.0,
        ),
{
    match a.get() {
        hayagriva::citationberg::Style::Independent(st) => {
            let sorts = st.bibliography.as_ref().map(|b| b.sort.is_some()).unwrap_or(false);
            let has_bib = st.bibliography.is_some();
            Some((st, sorts, has_bib))
        },
        hayagriva::citationberg::Style::Dependent(_) => None,
    }
}

/// How the raw style input is to be read: as an inline style definition, or
/// as the name of a style in the bundled archive.
#[derive(Debug, Clone, Copy)]
pub enum StyleFormat {
    /// The input is the style definition itself.
    Inline,
    /// The input names a style of the bundled archive.
    ArchiveName,
}

/// The resolved, self-contained citation style, with the two of its traits
/// this pipeline decides by: whether it defines its own sort, and whether
/// it defines a bibliography section.
pub struct StyleHandle {
    /// The independent style itself, as the engine takes it.
    pub style: hayagriva::citationberg::IndependentStyle,
    /// Whether the style defines its own bibliography sort order.
    pub sort_defined: bool,
    /// Whether the style defines a bibliography section.
    pub has_bibliography: bool,
}

impl StyleHandle {
    /// The flags say of the held style exactly what the engine will read
    /// from it.
    pub open spec fn wf(self) -> bool {
        &&& self.sort_defined == style_sort_defined(self.style)
        &&& self.has_bibliography == style_has_bibliography(self.style)
    }
}

/// What resolving a style input yields: its sort and bibliography flags, or
/// `None` when resolution fails (malformed inline text, unknown archive
/// name, or a dependent archived style).
pub open spec fn style_traits(text: Seq<char>, fmt: StyleFormat) -> Option<(bool, bool)> {
    match fmt {
        StyleFormat::Inline => inline_style_info(text),
        StyleFormat::ArchiveName => match archive_lookup(text) {
            Option::None => Option::None,
            Option::Some(a) => archived_style_info(a),
        },
    }
}

/// Resolve the effective citation style. An unknown archive name always
/// fails; nothing is silently substituted. A found-but-dependent style is
/// rejected: only an independent style carries a complete rule set.
pub fn resolve_style(text: &str, fmt: StyleFormat) -> (r: Result<StyleHandle, ResolveError>)
    ensures
        r.is_ok() == (style_traits(text@, fmt) is Some),
        r matches Ok(h) ==> h.wf() && style_traits(text@, fmt) == Some(
            (h.sort_defined, h.has_bibliography),
        ),
        r matches Err(e) ==> e matches ResolveError::StyleResolution(_),
{
    match fmt {
        StyleFormat::Inline => {
            match parse_inline_style(text) {
                Some(t) => Ok(
                    StyleHandle { style: t.0, sort_defined: t.1, has_bibliography: t.2 },
                ),
                None => Err(ResolveError::StyleResolution(text.to_owned())),
            }
        },
        StyleFormat::ArchiveName => {
            match archive_find(text) {
                None => Err(ResolveError::StyleResolution(text.to_owned())),
                Some(a) => {
                    match archived_get(a) {
                        Some(t) => Ok(
                            StyleHandle { style: t.0, sort_defined: t.1, has_bibliography: t.2 },
                        ),
                        None => Err(ResolveError::StyleResolution(text.to_owned())),
                    }
                },
            }
        },
    }
}

} // verus!

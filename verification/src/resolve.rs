//! The resolution pipeline, end to end: merge the sources, resolve the
//! style, decide the inclusion order, submit the requests, and read the
//! ordered keys back from the engine's bibliography.

use vstd::prelude::*;
use crate::bib::SourceFormat;
use crate::bib::all_sources_parse;
use crate::bib::library_key_seq;
use crate::bib::library_keys;
use crate::bib::merge_sources;
use crate::bib::merged_keys;
use crate::engine::driver_finish;
use crate::engine::load_locales;
use crate::engine::submit_plan;
use crate::error::ResolveError;
use crate::policy::all_cited_present;
use crate::policy::decided_keys;
use crate::policy::dedup_first;
use crate::policy::first_missing;
use crate::policy::lemma_dedup_first_membership;
use crate::policy::plan_citations;
use crate::policy::plan_keys;
use crate::style::StyleFormat;
use crate::style::resolve_style;
use crate::style::style_traits;
use crate::textparse::join_text;
use crate::textparse::parse_bool_text;
use crate::textparse::spec_join;
use crate::textparse::spec_parse_bool;
use crate::textparse::spec_split;
use crate::textparse::split_text;
use crate::textparse::str_eq;
use crate::textparse::views_of;
use vstd::utf8::decode_utf8;
use vstd::utf8::valid_utf8;

verus! {

/// Whether a call is accepted: every source parses, the style resolves, every
/// cited key exists in the merged library, and the style has a bibliography
/// section for the engine to produce.
pub open spec fn call_accepted(
    texts: Seq<Seq<char>>,
    fmts: Seq<SourceFormat>,
    style_text: Seq<char>,
    style_fmt: StyleFormat,
    cited: Seq<Seq<char>>,
) -> bool {
    &&& all_sources_parse(texts, fmts)
    &&& style_traits(style_text, style_fmt) is Some
    &&& all_cited_present(merged_keys(texts, fmts), cited)
    &&& style_traits(style_text, style_fmt).unwrap().1
}

/// The key order decided for a call, before the engine's own sort (if any)
/// is applied.
pub open spec fn call_decided_keys(
    texts: Seq<Seq<char>>,
    fmts: Seq<SourceFormat>,
    style_text: Seq<char>,
    style_fmt: StyleFormat,
    full: bool,
    cited: Seq<Seq<char>>,
) -> Seq<Seq<char>> {
    decided_keys(
        merged_keys(texts, fmts),
        cited,
        full,
        style_traits(style_text, style_fmt).unwrap().0,
    )
}

/// Resolve the ordered bibliography keys for one call. Every failure is
/// fatal for the whole call: a source that matches neither grammar, a style
/// that does not resolve to an independent style, a cited key absent from
/// the merged library (named in the error), and a style that produces no
/// bibliography are each reported, in that order of checking.
pub fn generate_bibliography(
    bib: &Vec<String>,
    formats: &Vec<SourceFormat>,
    full: bool,
    style: &str,
    style_format: StyleFormat,
    lang: &str,
    cited: &Vec<String>,
) -> (r: Result<Vec<String>, ResolveError>)
    requires
        bib@.len() == formats@.len(),
    ensures
        r.is_ok() == call_accepted(views_of(bib@), formats@, style@, style_format, views_of(cited@)),
        r matches Ok(keys) ==> {
            let decided = call_decided_keys(
                views_of(bib@),
                formats@,
                style@,
                style_format,
                full,
                views_of(cited@),
            );
            &&& views_of(keys@).to_multiset() == decided.to_multiset()
            &&& (!style_traits(style@, style_format).unwrap().0 ==> views_of(keys@) == decided)
        },
        r matches Err(e) ==> match e {
            ResolveError::Schema(_) => !all_sources_parse(views_of(bib@), formats@),
            ResolveError::StyleResolution(_) => all_sources_parse(views_of(bib@), formats@)
                && style_traits(style@, style_format) is None,
            ResolveError::MissingEntry(k) => {
                let libk = merged_keys(views_of(bib@), formats@);
                &&& all_sources_parse(views_of(bib@), formats@)
                &&& style_traits(style@, style_format) is Some
                &&& !all_cited_present(libk, views_of(cited@))
                &&& k@ == views_of(cited@)[first_missing(libk, views_of(cited@)).unwrap()]
            },
            ResolveError::EngineOutput => all_sources_parse(views_of(bib@), formats@)
                && style_traits(style@, style_format) is Some && all_cited_present(
                merged_keys(views_of(bib@), formats@),
                views_of(cited@),
            ) && !style_traits(style@, style_format).unwrap().1,
            ResolveError::Decoding(_) => false,
        },
{
    let library = match merge_sources(bib, formats) {
        Ok(l) => l,
        Err(e) => {
            return Err(e);
        },
    };
    let handle = match resolve_style(style, style_format) {
        Ok(h) => h,
        Err(e) => {
            return Err(e);
        },
    };
    let lib_keys = library_keys(&library);
    let plan = match plan_citations(&lib_keys, cited, full, handle.sort_defined) {
        Ok(p) => p,
        Err(e) => {
            return Err(e);
        },
    };
    proof {
        lemma_dedup_first_membership(views_of(cited@));
        assert forall|i: int| 0 <= i < plan_keys(plan@).len() implies library_key_seq(
            library,
        ).contains(#[trigger] plan_keys(plan@)[i]) by {
            if !(full && handle.sort_defined) {
                assert(dedup_first(views_of(cited@)).contains(plan_keys(plan@)[i]));
                assert(views_of(cited@).contains(plan_keys(plan@)[i]));
            }
        }
        assert(plan_keys(plan@).no_duplicates());
    }
    let locales = load_locales();
    let driver = submit_plan(&library, &plan, &handle.style, lang, &locales);
    match driver_finish(driver, &handle.style, lang, &locales) {
        Some(out) => Ok(out),
        None => Err(ResolveError::EngineOutput),
    }
}

/// With a style that defines no sort of its own — `full` or not — a
/// distinct, fully resolving cited-key sequence is decided, and so
/// returned, exactly as given: order preserved, no additions, no removals,
/// never an insertion-order listing of the whole library.
pub proof fn lemma_returned_order_is_cited(
    texts: Seq<Seq<char>>,
    fmts: Seq<SourceFormat>,
    style_text: Seq<char>,
    style_fmt: StyleFormat,
    full: bool,
    cited: Seq<Seq<char>>,
)
    requires
        cited.no_duplicates(),
        style_traits(style_text, style_fmt) is Some,
        !(full && style_traits(style_text, style_fmt).unwrap().0),
    ensures
        call_decided_keys(texts, fmts, style_text, style_fmt, full, cited) == cited,
{
    crate::policy::lemma_document_order_authoritative(
        merged_keys(texts, fmts),
        cited,
        full,
        style_traits(style_text, style_fmt).unwrap().0,
    );
}

/// With `full` and a style that defines its own sort, the decided keys are
/// the whole merged library: every identifier of it exactly once, none of
/// the cited sequence's order surviving submission (the engine reorders
/// authoritatively).
pub proof fn lemma_full_mode_covers_library(
    texts: Seq<Seq<char>>,
    fmts: Seq<SourceFormat>,
    style_text: Seq<char>,
    style_fmt: StyleFormat,
    cited: Seq<Seq<char>>,
)
    requires
        texts.len() == fmts.len(),
        style_traits(style_text, style_fmt) is Some,
        style_traits(style_text, style_fmt).unwrap().0,
    ensures
        call_decided_keys(texts, fmts, style_text, style_fmt, true, cited) == merged_keys(
            texts,
            fmts,
        ),
        call_decided_keys(texts, fmts, style_text, style_fmt, true, cited).no_duplicates(),
{
    crate::bib::lemma_merge_order_independent(texts, fmts);
}

/// The per-source format tags of the boundary: `bib` for BibTeX, `yml` for
/// the structured format, `bytes` for auto-detection.
pub open spec fn spec_format_tag(s: Seq<char>) -> Option<SourceFormat> {
    if s == "bib"@ {
        Some(SourceFormat::Bibtex)
    } else if s == "yml"@ {
        Some(SourceFormat::Structured)
    } else if s == "bytes"@ {
        Some(SourceFormat::Auto)
    } else {
        None
    }
}

/// The style-format discriminator of the boundary: `csl` for an inline
/// definition, `text` for an archive-name lookup.
pub open spec fn spec_style_format_tag(s: Seq<char>) -> Option<StyleFormat> {
    if s == "csl"@ {
        Some(StyleFormat::Inline)
    } else if s == "text"@ {
        Some(StyleFormat::ArchiveName)
    } else {
        None
    }
}

/// The source payloads of the `bib` input: empty input carries no source;
/// otherwise the payloads are separated by `%%%`.
pub open spec fn source_texts_of(bib: Seq<char>) -> Seq<Seq<char>> {
    if bib.len() == 0 {
        Seq::empty()
    } else {
        spec_split(bib, "%%%"@)
    }
}

/// The cited keys of the `cited` input: empty input cites nothing;
/// otherwise the keys are comma-separated, in document order.
pub open spec fn cited_of(cited: Seq<char>) -> Seq<Seq<char>> {
    if cited.len() == 0 {
        Seq::empty()
    } else {
        spec_split(cited, ","@)
    }
}

/// The per-source formats in effect for `n` sources: auto-detection for
/// every source when the format list is absent, otherwise the parsed tags,
/// aligned positionally; `None` when a tag is unknown or the counts differ.
pub open spec fn effective_formats(formats: Seq<char>, n: nat) -> Option<Seq<SourceFormat>> {
    if formats.len() == 0 {
        Some(Seq::new(n, |i: int| SourceFormat::Auto))
    } else {
        let parts = spec_split(formats, ","@);
        if parts.len() == n && (forall|i: int|
            0 <= i < parts.len() ==> spec_format_tag(#[trigger] parts[i]) is Some) {
            Some(Seq::new(n, |i: int| spec_format_tag(parts[i]).unwrap()))
        } else {
            None
        }
    }
}

/// Whether all seven boundary inputs are valid UTF-8.
pub open spec fn inputs_decodable(
    bib: Seq<u8>,
    formats: Seq<u8>,
    full: Seq<u8>,
    style: Seq<u8>,
    style_format: Seq<u8>,
    lang: Seq<u8>,
    cited: Seq<u8>,
) -> bool {
    &&& valid_utf8(bib)
    &&& valid_utf8(formats)
    &&& valid_utf8(full)
    &&& valid_utf8(style)
    &&& valid_utf8(style_format)
    &&& valid_utf8(lang)
    &&& valid_utf8(cited)
}

/// Whether the micro-formatted fields parse: the boolean, the style-format
/// discriminator, and the per-source format tags aligned with the sources.
pub open spec fn boundary_ok(
    bib: Seq<u8>,
    formats: Seq<u8>,
    full: Seq<u8>,
    style_format: Seq<u8>,
) -> bool {
    &&& spec_parse_bool(decode_utf8(full)) is Some
    &&& spec_style_format_tag(decode_utf8(style_format)) is Some
    &&& effective_formats(decode_utf8(formats), source_texts_of(decode_utf8(bib)).len()) is Some
}

/// Relies on core::str::from_utf8: it succeeds exactly on valid UTF-8 and
/// yields the decoded characters.
#[verifier::external_body]
fn decode_input(b: &[u8]) -> (r: Option<String>)
    ensures
        r is Some <==> valid_utf8(b@),
        r matches Some(s) ==> s@ == decode_utf8(b@),
{
    match core::str::from_utf8(b) {
        Ok(s) => Some(s.to_string()),
        Err(_) => None,
    }
}

/// Parse one per-source format tag.
pub fn parse_format_tag(s: &str) -> (r: Option<SourceFormat>)
    ensures
        r == spec_format_tag(s@),
{
    if str_eq(s, "bib") {
        Some(SourceFormat::Bibtex)
    } else if str_eq(s, "yml") {
        Some(SourceFormat::Structured)
    } else if str_eq(s, "bytes") {
        Some(SourceFormat::Auto)
    } else {
        None
    }
}

/// Parse the style-format discriminator.
pub fn parse_style_format_tag(s: &str) -> (r: Option<StyleFormat>)
    ensures
        r == spec_style_format_tag(s@),
{
    if str_eq(s, "csl") {
        Some(StyleFormat::Inline)
    } else if str_eq(s, "text") {
        Some(StyleFormat::ArchiveName)
    } else {
        None
    }
}

/// The byte-oriented call boundary: decode the seven inputs, split the
/// payload and list fields, resolve, and join the resulting keys with
/// spaces. Any input that is not valid UTF-8, and any field that fails its
/// micro-format parse, is a decoding error; every further failure is the
/// pipeline's own, named by its kind.
pub fn sorted_bib_keys(
    bib: &[u8],
    formats: &[u8],
    full: &[u8],
    style: &[u8],
    style_format: &[u8],
    lang: &[u8],
    cited: &[u8],
) -> (r: Result<String, ResolveError>)
    ensures
        r.is_ok() <==> inputs_decodable(
            bib@,
            formats@,
            full@,
            style@,
            style_format@,
            lang@,
            cited@,
        ) && boundary_ok(bib@, formats@, full@, style_format@) && call_accepted(
            source_texts_of(decode_utf8(bib@)),
            effective_formats(
                decode_utf8(formats@),
                source_texts_of(decode_utf8(bib@)).len(),
            ).unwrap(),
            decode_utf8(style@),
            spec_style_format_tag(decode_utf8(style_format@)).unwrap(),
            cited_of(decode_utf8(cited@)),
        ),
        r matches Ok(out) ==> ({
            let texts = source_texts_of(decode_utf8(bib@));
            let fmts = effective_formats(decode_utf8(formats@), texts.len()).unwrap();
            let sfmt = spec_style_format_tag(decode_utf8(style_format@)).unwrap();
            let fullb = spec_parse_bool(decode_utf8(full@)).unwrap();
            let decided = call_decided_keys(
                texts,
                fmts,
                decode_utf8(style@),
                sfmt,
                fullb,
                cited_of(decode_utf8(cited@)),
            );
            &&& (!style_traits(decode_utf8(style@), sfmt).unwrap().0 ==> out@ == spec_join(
                decided,
                " "@,
            ))
            &&& exists|ks: Seq<Seq<char>>|
                #[trigger] ks.to_multiset() == decided.to_multiset() && out@ == spec_join(
                    ks,
                    " "@,
                )
        }),
        r matches Err(e) ==> (e matches ResolveError::Decoding(_) <==> !(inputs_decodable(
            bib@,
            formats@,
            full@,
            style@,
            style_format@,
            lang@,
            cited@,
        ) && boundary_ok(bib@, formats@, full@, style_format@))),
        r matches Err(e) ==> (e matches ResolveError::Schema(_) ==> !all_sources_parse(
            source_texts_of(decode_utf8(bib@)),
            effective_formats(
                decode_utf8(formats@),
                source_texts_of(decode_utf8(bib@)).len(),
            ).unwrap(),
        )),
        r matches Err(e) ==> (e matches ResolveError::StyleResolution(_) ==> style_traits(
            decode_utf8(style@),
            spec_style_format_tag(decode_utf8(style_format@)).unwrap(),
        ) is None),
        r matches Err(e) ==> (e matches ResolveError::MissingEntry(k) ==> ({
            let texts = source_texts_of(decode_utf8(bib@));
            let fmts = effective_formats(decode_utf8(formats@), texts.len()).unwrap();
            let libk = merged_keys(texts, fmts);
            let cit = cited_of(decode_utf8(cited@));
            &&& !all_cited_present(libk, cit)
            &&& k@ == cit[first_missing(libk, cit).unwrap()]
        })),
        r matches Err(e) ==> (e is EngineOutput ==> !style_traits(
            decode_utf8(style@),
            spec_style_format_tag(decode_utf8(style_format@)).unwrap(),
        ).unwrap().1),
{
    let bib_s = match decode_input(bib) {
        Some(s) => s,
        None => {
            return Err(ResolveError::Decoding("bibliography sources are not valid UTF-8".to_owned()));
        },
    };
    let formats_s = match decode_input(formats) {
        Some(s) => s,
        None => {
            return Err(ResolveError::Decoding("format list is not valid UTF-8".to_owned()));
        },
    };
    let full_s = match decode_input(full) {
        Some(s) => s,
        None => {
            return Err(ResolveError::Decoding("full flag is not valid UTF-8".to_owned()));
        },
    };
    let style_s = match decode_input(style) {
        Some(s) => s,
        None => {
            return Err(ResolveError::Decoding("style is not valid UTF-8".to_owned()));
        },
    };
    let style_format_s = match decode_input(style_format) {
        Some(s) => s,
        None => {
            return Err(ResolveError::Decoding("style format is not valid UTF-8".to_owned()));
        },
    };
    let lang_s = match decode_input(lang) {
        Some(s) => s,
        None => {
            return Err(ResolveError::Decoding("language is not valid UTF-8".to_owned()));
        },
    };
    let cited_s = match decode_input(cited) {
        Some(s) => s,
        None => {
            return Err(ResolveError::Decoding("cited keys are not valid UTF-8".to_owned()));
        },
    };
    let full_b = match parse_bool_text(full_s.as_str()) {
        Some(b) => b,
        None => {
            return Err(ResolveError::Decoding(full_s));
        },
    };
    let sfmt = match parse_style_format_tag(style_format_s.as_str()) {
        Some(f) => f,
        None => {
            return Err(ResolveError::Decoding(style_format_s));
        },
    };
    proof {
        reveal_strlit("%%%");
        reveal_strlit(",");
    }
    let sources: Vec<String> = if bib_s.as_str().is_empty() {
        Vec::new()
    } else {
        split_text(bib_s.as_str(), "%%%")
    };
    proof {
        assert(views_of(sources@) =~= source_texts_of(decode_utf8(bib@)));
    }
    let mut fmts: Vec<SourceFormat> = Vec::new();
    if formats_s.as_str().is_empty() {
        let mut i: usize = 0;
        while i < sources.len()
            invariant
                i <= sources@.len(),
                fmts@ =~= Seq::new(i as nat, |j: int| SourceFormat::Auto),
            decreases sources@.len() - i,
        {
            fmts.push(SourceFormat::Auto);
            i = i + 1;
            proof {
                assert(fmts@ =~= Seq::new(i as nat, |j: int| SourceFormat::Auto));
            }
        }
    } else {
        let parts = split_text(formats_s.as_str(), ",");
        if parts.len() != sources.len() {
            proof {
                assert(effective_formats(
                    decode_utf8(formats@),
                    source_texts_of(decode_utf8(bib@)).len(),
                ) is None);
            }
            return Err(ResolveError::Decoding(formats_s));
        }
        let ghost part_views = views_of(parts@);
        let mut i: usize = 0;
        while i < parts.len()
            invariant
                i <= parts@.len(),
                part_views == views_of(parts@),
                part_views == spec_split(decode_utf8(formats@), ","@),
                decode_utf8(formats@).len() != 0,
                forall|j: int| 0 <= j < i ==> spec_format_tag(#[trigger] part_views[j]) is Some,
                fmts@ =~= Seq::new(i as nat, |j: int| spec_format_tag(part_views[j]).unwrap()),
            decreases parts@.len() - i,
        {
            let tag = match parse_format_tag(parts[i].as_str()) {
                Some(t) => t,
                None => {
                    proof {
                        assert(part_views == spec_split(decode_utf8(formats@), ","@));
                        assert(0 <= i < part_views.len() && spec_format_tag(
                            part_views[i as int],
                        ) is None);
                        assert(effective_formats(
                            decode_utf8(formats@),
                            source_texts_of(decode_utf8(bib@)).len(),
                        ) is None);
                    }
                    return Err(ResolveError::Decoding(parts[i].clone()));
                },
            };
            fmts.push(tag);
            i = i + 1;
            proof {
                assert(fmts@ =~= Seq::new(
                    i as nat,
                    |j: int| spec_format_tag(part_views[j]).unwrap(),
                ));
            }
        }
    }
    proof {
        assert(effective_formats(
            decode_utf8(formats@),
            source_texts_of(decode_utf8(bib@)).len(),
        ) == Some(fmts@));
    }
    let cited_v: Vec<String> = if cited_s.as_str().is_empty() {
        Vec::new()
    } else {
        split_text(cited_s.as_str(), ",")
    };
    proof {
        assert(views_of(cited_v@) =~= cited_of(decode_utf8(cited@)));
    }
    let out = match generate_bibliography(
        &sources,
        &fmts,
        full_b,
        style_s.as_str(),
        sfmt,
        lang_s.as_str(),
        &cited_v,
    ) {
        Ok(k) => k,
        Err(e) => {
            return Err(e);
        },
    };
    let joined = join_text(&out, " ");
    Ok(joined)
}

} // verus!

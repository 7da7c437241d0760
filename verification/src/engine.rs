//! The citation request builder and key extractor: every selected entry is
//! submitted, in the decided order, to the citation engine's accumulating
//! driver; the finished bibliography is read back as the ordered list of
//! entry keys. Registration order is the only ordering signal the engine
//! sees when the style defines no sort, so it must equal the decided order
//! exactly — that is what `submit_plan` proves.

use vstd::prelude::*;
use crate::bib::entry_key;
use crate::bib::library_get;
use crate::bib::library_key_seq;
use crate::policy::PlannedCitation;
use crate::policy::plan_keys;
use crate::style::style_has_bibliography;
use crate::style::style_sort_defined;
use crate::textparse::views_of;

verus! {

#[verifier::external_type_specification]
#[verifier::external_body]
pub struct ExLocale(hayagriva::citationberg::Locale);

/// The citation engine's accumulating driver, together with what it borrows
/// for the requests it holds.
#[verifier::external_body]
pub struct Driver<'a> {
    inner: hayagriva::BibliographyDriver<'a, hayagriva::Entry>,
}

/// The keys of the citation requests a driver has accumulated, in
/// submission order.
pub uninterp spec fn driver_keys(d: Driver) -> Seq<Seq<char>>;

/// Relies on hayagriva's BibliographyDriver::new: a new driver holds no
/// requests.
#[verifier::external_body]
pub(crate) fn driver_new<'a>() -> (r: Driver<'a>)
    ensures
        driver_keys(r) == Seq::<Seq<char>>::empty(),
{
    Driver { inner: hayagriva::BibliographyDriver::new() }
}

/// Relies on hayagriva's BibliographyDriver::citation, CitationRequest::new
/// and CitationItem::new: one request holding this one entry, against the
/// given style and locale, is appended to the driver's request list. The
/// hidden flag marks a reference-only inclusion and never drops the entry
/// from the bibliography.
#[verifier::external_body]
pub(crate) fn driver_cite<'a>(
    d: &mut Driver<'a>,
    entry: &'a hayagriva::Entry,
    style: &'a hayagriva::citationberg::IndependentStyle,
    lang: &str,
    locales: &'a Vec<hayagriva::citationberg::Locale>,
    hidden: bool,
)
    ensures
        driver_keys(*final(d)) == driver_keys(*old(d)).push(entry_key(*entry)),
{
    let locale = Some(hayagriva::citationberg::LocaleCode(String::from(lang)));
    let item = hayagriva::CitationItem::new(entry, None, None, hidden, None);
    d.inner.citation(
        hayagriva::CitationRequest::new(vec![item], style, locale, locales.as_slice(), None),
    );
}

/// Relies on hayagriva's BibliographyDriver::finish: a bibliography comes
/// back exactly when the style defines a bibliography section. Its items
/// are the submitted entries, each once (first occurrence), reordered by
/// the style's own sort when the style defines one and left in submission
/// order otherwise; each item carries its entry's key. Submitted keys must
/// be pairwise distinct: the engine deduplicates by entry, which agrees
/// with keys only then.
#[verifier::external_body]
pub(crate) fn driver_finish<'a>(
    d: Driver<'a>,
    style: &hayagriva::citationberg::IndependentStyle,
    lang: &str,
    locales: &Vec<hayagriva::citationberg::Locale>,
) -> (r: Option<Vec<String>>)
    requires
        driver_keys(d).no_duplicates(),
    ensures
        r is Some <==> style_has_bibliography(*style),
        r matches Some(keys) ==> views_of(keys@).to_multiset() == driver_keys(d).to_multiset(),
        r matches Some(keys) ==> (!style_sort_defined(*style) ==> views_of(keys@) == driver_keys(
            d,
        )),
{
    let locale = Some(hayagriva::citationberg::LocaleCode(String::from(lang)));
    let rendered = d.inner.finish(
        hayagriva::BibliographyRequest { style, locale, locale_files: locales.as_slice() },
    );
    rendered.bibliography.map(|b| b.items.into_iter().map(|i| i.key).collect())
}

/// Relies on hayagriva's archive::locales: the bundled, read-only locale
/// resource, handed opaquely to the engine.
#[verifier::external_body]
pub(crate) fn load_locales() -> Vec<hayagriva::citationberg::Locale> {
    hayagriva::archive::locales()
}

/// Submit the whole plan, in order: the driver ends up holding exactly the
/// decided keys, in the decided sequence.
pub fn submit_plan<'a>(
    library: &'a hayagriva::Library,
    plan: &Vec<PlannedCitation>,
    style: &'a hayagriva::citationberg::IndependentStyle,
    lang: &str,
    locales: &'a Vec<hayagriva::citationberg::Locale>,
) -> (r: Driver<'a>)
    requires
        forall|i: int|
            0 <= i < plan@.len() ==> library_key_seq(*library).contains(
                #[trigger] plan_keys(plan@)[i],
            ),
    ensures
        driver_keys(r) == plan_keys(plan@),
{
    let mut driver = driver_new();
    let mut i: usize = 0;
    while i < plan.len()
        invariant
            forall|j: int|
                0 <= j < plan@.len() ==> library_key_seq(*library).contains(
                    #[trigger] plan_keys(plan@)[j],
                ),
            i <= plan@.len(),
            driver_keys(driver) == plan_keys(plan@).take(i as int),
        decreases plan@.len() - i,
    {
        proof {
            assert(plan_keys(plan@)[i as int] == plan@[i as int].key@);
        }
        let got = library_get(library, plan[i].key.as_str());
        match got {
            Some(entry) => {
                driver_cite(&mut driver, entry, style, lang, locales, plan[i].hidden);
                proof {
                    assert(driver_keys(driver) =~= plan_keys(plan@).take(i as int + 1));
                }
            },
            None => {
                // The plan only holds keys the library resolves.
                proof {
                    assert(false);
                }
            },
        }
        i = i + 1;
    }
    proof {
        assert(plan_keys(plan@).take(plan@.len() as int) =~= plan_keys(plan@));
    }
    driver
}

} // verus!

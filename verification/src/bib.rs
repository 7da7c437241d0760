//! The source merger: raw bibliography payloads in mixed formats are parsed
//! and folded, left to right, into one library keyed by entry identifier.
//! Parsing itself belongs to the data-format library (hayagriva) and is
//! trusted through the wrappers below; the merge and its key bookkeeping are
//! verified.

use vstd::prelude::*;
use crate::error::ResolveError;
use crate::textparse::views_of;
use crate::policy::dedup_first;
use crate::policy::lemma_dedup_first_membership;

verus! {

#[verifier::external_type_specification]
#[verifier::external_body]
pub struct ExLibrary(hayagriva::Library);

#[verifier::external_type_specification]
#[verifier::external_body]
pub struct ExEntry(hayagriva::Entry);

/// The keys of the entries a library holds, in the library's storage order.
/// A library maps each key to at most one entry, so this sequence never
/// repeats a key.
pub uninterp spec fn library_key_seq(l: hayagriva::Library) -> Seq<Seq<char>>;

/// The key that identifies an entry.
pub uninterp spec fn entry_key(e: hayagriva::Entry) -> Seq<char>;

/// The keys, in storage order, of the library that parsing a text in the
/// structured format yields; `None` when the text is not valid structured
/// bibliography data.
pub uninterp spec fn structured_keys(s: Seq<char>) -> Option<Seq<Seq<char>>>;

/// The keys, in storage order, of the library that parsing a text as BibTeX
/// yields; `None` when the text is not valid BibTeX.
pub uninterp spec fn bibtex_keys(s: Seq<char>) -> Option<Seq<Seq<char>>>;

/// Relies on hayagriva::Library::new: a new library is empty.
#[verifier::external_body]
pub(crate) fn library_new() -> (r: hayagriva::Library)
    ensures
        library_key_seq(r) == Seq::<Seq<char>>::empty(),
{
    hayagriva::Library::new()
}

/// Relies on hayagriva::io::from_yaml_str: parsing is a function of the
/// text alone; the parsed library maps each key to one entry, so its key
/// sequence has no duplicates.
#[verifier::external_body]
pub(crate) fn parse_structured(s: &str) -> (r: Option<hayagriva::Library>)
    ensures
        r is Some <==> structured_keys(s@) is Some,
        r matches Some(l) ==> library_key_seq(l) == structured_keys(s@).unwrap(),
        r matches Some(l) ==> library_key_seq(l).no_duplicates(),
{
    hayagriva::io::from_yaml_str(s).ok()
}

/// Relies on hayagriva::io::from_biblatex_str: parsing is a function of the
/// text alone; the parsed library maps each key to one entry, so its key
/// sequence has no duplicates.
#[verifier::external_body]
pub(crate) fn parse_bibtex(s: &str) -> (r: Option<hayagriva::Library>)
    ensures
        r is Some <==> bibtex_keys(s@) is Some,
        r matches Some(l) ==> library_key_seq(l) == bibtex_keys(s@).unwrap(),
        r matches Some(l) ==> library_key_seq(l).no_duplicates(),
{
    hayagriva::io::from_biblatex_str(s).ok()
}

/// Relies on hayagriva::Library::push: the entry is inserted under its own
/// key; an existing key keeps its position and gets the new entry, a new
/// key is appended at the end.
#[verifier::external_body]
pub(crate) fn library_push(l: &mut hayagriva::Library, e: &hayagriva::Entry)
    ensures
        library_key_seq(*final(l)) == if library_key_seq(*old(l)).contains(entry_key(*e)) {
            library_key_seq(*old(l))
        } else {
            library_key_seq(*old(l)).push(entry_key(*e))
        },
{
    l.push(e)
}

/// Relies on hayagriva::Library::into_iter: the entries come out in storage
/// order.
#[verifier::external_body]
pub(crate) fn library_entries(l: hayagriva::Library) -> (r: Vec<hayagriva::Entry>)
    ensures
        r@.map_values(|e: hayagriva::Entry| entry_key(e)) == library_key_seq(l),
{
    l.into_iter().collect()
}

/// Relies on hayagriva::Library::get: lookup of the entry of a key.
#[verifier::external_body]
pub(crate) fn library_get<'a>(l: &'a hayagriva::Library, key: &str) -> (r: Option<
    &'a hayagriva::Entry,
>)
    ensures
        r is Some <==> library_key_seq(*l).contains(key@),
        r matches Some(e) ==> entry_key(*e) == key@,
{
    l.get(key)
}

/// Relies on hayagriva::Library::keys: the keys in storage order.
#[verifier::external_body]
pub(crate) fn library_keys(l: &hayagriva::Library) -> (r: Vec<String>)
    ensures
        views_of(r@) == library_key_seq(*l),
{
    l.keys().map(|k| k.to_owned()).collect()
}

/// The declared format of one raw source: a specific grammar, or
/// auto-detection.
#[derive(Debug, Clone, Copy)]
pub enum SourceFormat {
    /// Parse as BibTeX only.
    Bibtex,
    /// Parse as the structured format only.
    Structured,
    /// Try the structured format first (the stricter grammar), then fall
    /// back to BibTeX.
    Auto,
}

/// The keys that one source contributes under its format policy, or `None`
/// when the source fails that policy.
pub open spec fn source_keys(text: Seq<char>, fmt: SourceFormat) -> Option<Seq<Seq<char>>> {
    match fmt {
        SourceFormat::Bibtex => bibtex_keys(text),
        SourceFormat::Structured => structured_keys(text),
        SourceFormat::Auto => if structured_keys(text) is Some {
            structured_keys(text)
        } else {
            bibtex_keys(text)
        },
    }
}

/// Whether every source parses under its format policy.
pub open spec fn all_sources_parse(texts: Seq<Seq<char>>, fmts: Seq<SourceFormat>) -> bool {
    forall|i: int| 0 <= i < texts.len() ==> source_keys(texts[i], #[trigger] fmts[i]) is Some
}

/// The key lists that the sources contribute, one per source.
pub open spec fn source_key_lists(texts: Seq<Seq<char>>, fmts: Seq<SourceFormat>) -> Seq<
    Seq<Seq<char>>,
> {
    Seq::new(texts.len(), |i: int| source_keys(texts[i], fmts[i]).unwrap())
}

/// The keys of the merged library: every source's keys, in source order,
/// each key kept at its first occurrence only.
pub open spec fn merged_keys(texts: Seq<Seq<char>>, fmts: Seq<SourceFormat>) -> Seq<Seq<char>> {
    dedup_first(source_key_lists(texts, fmts).flatten())
}

/// A key appears in the flattened key lists exactly when some list holds
/// it.
proof fn lemma_flatten_membership(lists: Seq<Seq<Seq<char>>>)
    ensures
        forall|k: Seq<char>|
            lists.flatten().contains(k) <==> (exists|i: int|
                0 <= i < lists.len() && #[trigger] lists[i].contains(k)),
    decreases lists.len(),
{
    if lists.len() == 0 {
        assert(lists.flatten() =~= Seq::<Seq<char>>::empty());
    } else {
        let front = lists.drop_last();
        lemma_flatten_membership(front);
        front.lemma_flatten_push(lists.last());
        assert(front.push(lists.last()) =~= lists);
        assert(lists.flatten() == front.flatten() + lists.last());
        assert forall|k: Seq<char>| lists.flatten().contains(k) implies (exists|i: int|
            0 <= i < lists.len() && #[trigger] lists[i].contains(k)) by {
            let j = choose|j: int|
                0 <= j < lists.flatten().len() && lists.flatten()[j] == k;
            if j < front.flatten().len() {
                assert(front.flatten()[j] == k);
                assert(front.flatten().contains(k));
                let i = choose|i: int| 0 <= i < front.len() && #[trigger] front[i].contains(k);
                assert(lists[i].contains(k));
            } else {
                assert(lists.last()[j - front.flatten().len()] == k);
                assert(lists.last().contains(k));
                assert(lists[lists.len() - 1].contains(k));
            }
        }
        assert forall|k: Seq<char>|
            (exists|i: int| 0 <= i < lists.len() && #[trigger] lists[i].contains(k)) implies lists
            .flatten().contains(k) by {
            let i = choose|i: int| 0 <= i < lists.len() && #[trigger] lists[i].contains(k);
            if i < lists.len() - 1 {
                assert(front[i].contains(k));
                assert(front.flatten().contains(k));
                let j = choose|j: int|
                    0 <= j < front.flatten().len() && front.flatten()[j] == k;
                assert(lists.flatten()[j] == k);
                assert(lists.flatten().contains(k));
            } else {
                let j = choose|j: int| 0 <= j < lists.last().len() && lists.last()[j] == k;
                assert(lists.flatten()[front.flatten().len() + j] == k);
                assert(lists.flatten().contains(k));
            }
        }
    }
}

/// Merging is order-independent with respect to the set of resulting
/// identifiers: a key is in the merged library exactly when some source
/// contributes it, whatever the order of the sources; and the merged
/// library never holds a duplicate identifier.
pub proof fn lemma_merge_order_independent(texts: Seq<Seq<char>>, fmts: Seq<SourceFormat>)
    requires
        texts.len() == fmts.len(),
    ensures
        forall|k: Seq<char>|
            merged_keys(texts, fmts).contains(k) <==> (exists|i: int|
                0 <= i < texts.len() && #[trigger] source_keys(
                    texts[i],
                    fmts[i],
                ).unwrap().contains(k)),
        merged_keys(texts, fmts).no_duplicates(),
{
    let lists = source_key_lists(texts, fmts);
    lemma_dedup_first_membership(lists.flatten());
    lemma_flatten_membership(lists);
    assert forall|k: Seq<char>| merged_keys(texts, fmts).contains(k) implies (exists|i: int|
        0 <= i < texts.len() && #[trigger] source_keys(texts[i], fmts[i]).unwrap().contains(
            k,
        )) by {
        assert(lists.flatten().contains(k));
        let i = choose|i: int| 0 <= i < lists.len() && #[trigger] lists[i].contains(k);
        assert(source_keys(texts[i], fmts[i]).unwrap().contains(k));
    }
    assert forall|k: Seq<char>|
        (exists|i: int|
            0 <= i < texts.len() && #[trigger] source_keys(texts[i], fmts[i]).unwrap().contains(
                k,
            )) implies merged_keys(texts, fmts).contains(k) by {
        let i = choose|i: int|
            0 <= i < texts.len() && #[trigger] source_keys(texts[i], fmts[i]).unwrap().contains(
                k,
            );
        assert(lists[i].contains(k));
        assert(lists.flatten().contains(k));
    }
}

/// Parse one source under its format policy.
pub fn parse_source(text: &str, fmt: SourceFormat) -> (r: Option<hayagriva::Library>)
    ensures
        r is Some <==> source_keys(text@, fmt) is Some,
        r matches Some(l) ==> library_key_seq(l) == source_keys(text@, fmt).unwrap(),
        r matches Some(l) ==> library_key_seq(l).no_duplicates(),
{
    match fmt {
        SourceFormat::Bibtex => parse_bibtex(text),
        SourceFormat::Structured => parse_structured(text),
        SourceFormat::Auto => {
            let first = parse_structured(text);
            match first {
                Some(l) => Some(l),
                None => parse_bibtex(text),
            }
        },
    }
}

/// Merge all sources, left to right, into one library. A source that fails
/// its format policy fails the whole merge; nothing is partially merged.
/// The merged library holds exactly the keys of all sources, first
/// occurrence first, and never a duplicate.
pub fn merge_sources(texts: &Vec<String>, formats: &Vec<SourceFormat>) -> (r: Result<
    hayagriva::Library,
    ResolveError,
>)
    requires
        texts@.len() == formats@.len(),
    ensures
        r.is_ok() == all_sources_parse(views_of(texts@), formats@),
        r matches Ok(l) ==> library_key_seq(l) == merged_keys(views_of(texts@), formats@),
        r matches Ok(l) ==> library_key_seq(l).no_duplicates(),
        r matches Err(e) ==> e matches ResolveError::Schema(_),
{
    let ghost text_views = views_of(texts@);
    let mut acc = library_new();
    let mut i: usize = 0;
    while i < texts.len()
        invariant
            texts@.len() == formats@.len(),
            i <= texts@.len(),
            text_views == views_of(texts@),
            forall|j: int|
                0 <= j < i ==> source_keys(text_views[j], #[trigger] formats@[j]) is Some,
            library_key_seq(acc) == dedup_first(
                source_key_lists(text_views.take(i as int), formats@.take(i as int)).flatten(),
            ),
        decreases texts@.len() - i,
    {
        let parsed = parse_source(texts[i].as_str(), formats[i]);
        match parsed {
            None => {
                return Err(ResolveError::Schema(texts[i].clone()));
            },
            Some(lib) => {
                let ghost prior = source_key_lists(
                    text_views.take(i as int),
                    formats@.take(i as int),
                ).flatten();
                let ghost ks = library_key_seq(lib);
                let entries = library_entries(lib);
                let mut e: usize = 0;
                while e < entries.len()
                    invariant
                        e <= entries@.len(),
                        entries@.map_values(|en: hayagriva::Entry| entry_key(en)) == ks,
                        library_key_seq(acc) == dedup_first(prior + ks.take(e as int)),
                    decreases entries@.len() - e,
                {
                    let ghost grown = prior + ks.take(e as int);
                    proof {
                        lemma_dedup_first_membership(grown);
                        assert((grown.push(ks[e as int])).drop_last() =~= grown);
                        assert((grown.push(ks[e as int])).last() == ks[e as int]);
                        assert(prior + ks.take(e as int + 1) =~= grown.push(ks[e as int]));
                        assert(entry_key(entries@[e as int]) == ks[e as int]);
                    }
                    library_push(&mut acc, &entries[e]);
                    e = e + 1;
                }
                proof {
                    assert(ks.take(ks.len() as int) =~= ks);
                    let lists_next = source_key_lists(
                        text_views.take(i as int + 1),
                        formats@.take(i as int + 1),
                    );
                    assert(lists_next.drop_last() =~= source_key_lists(
                        text_views.take(i as int),
                        formats@.take(i as int),
                    ));
                    assert(lists_next =~= lists_next.drop_last().push(ks));
                    lists_next.drop_last().lemma_flatten_push(ks);
                    assert(lists_next.flatten() =~= prior + ks);
                }
            },
        }
        i = i + 1;
    }
    proof {
        assert(text_views.take(text_views.len() as int) =~= text_views);
        assert(formats@.take(formats@.len() as int) =~= formats@);
        lemma_dedup_first_membership(source_key_lists(text_views, formats@).flatten());
    }
    Ok(acc)
}

} // verus!

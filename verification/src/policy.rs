//! The inclusion/order policy: which entries participate in the
//! bibliography, and in what sequence they are submitted to the citation
//! engine. Exactly one of document-citation-order and full-library
//! iteration governs a call, decided by the `full` flag and by whether the
//! resolved style defines its own sort.

use vstd::prelude::*;
use crate::error::ResolveError;
use crate::textparse::views_of;
use crate::textparse::str_eq;
use crate::textparse::contains_text;

verus! {

/// One unit of work for the citation engine: an entry key, and whether the
/// entry is only a reference-only inclusion (present for completeness, not
/// cited in the text).
pub struct PlannedCitation {
    /// The key of the entry to submit.
    pub key: String,
    /// `true` for an entry included only because the whole library is
    /// rendered; `false` for an entry actually cited in the document.
    pub hidden: bool,
}

/// The keys of a plan, in submission order.
pub open spec fn plan_keys(plan: Seq<PlannedCitation>) -> Seq<Seq<char>> {
    plan.map_values(|p: PlannedCitation| p.key@)
}

/// `keys` with every repetition of an earlier key removed: each key keeps
/// its first occurrence only.
pub open spec fn dedup_first(keys: Seq<Seq<char>>) -> Seq<Seq<char>>
    decreases keys.len(),
{
    if keys.len() == 0 {
        Seq::empty()
    } else {
        let front = dedup_first(keys.drop_last());
        if keys.drop_last().contains(keys.last()) {
            front
        } else {
            front.push(keys.last())
        }
    }
}

/// The position of the first cited key that the library does not hold, if
/// any. This is the key a failed resolution names.
pub open spec fn first_missing(library: Seq<Seq<char>>, cited: Seq<Seq<char>>) -> Option<int> {
    if forall|j: int| 0 <= j < cited.len() ==> library.contains(cited[j]) {
        None
    } else {
        Some(
            choose|j: int|
                0 <= j < cited.len() && !library.contains(cited[j]) && (forall|k: int|
                    0 <= k < j ==> library.contains(cited[k])),
        )
    }
}

/// Whether every cited key exists in the library.
pub open spec fn all_cited_present(library: Seq<Seq<char>>, cited: Seq<Seq<char>>) -> bool {
    forall|j: int| 0 <= j < cited.len() ==> library.contains(cited[j])
}

/// The decision table of the policy, for a call whose cited keys all
/// resolve. With `full` and a style-defined sort, the whole library is
/// submitted, in library order, since the engine re-sorts authoritatively.
/// In every other case the document's citation order is the only order with
/// inherent meaning, so the cited keys govern, first occurrence of each.
pub open spec fn decided_keys(
    library: Seq<Seq<char>>,
    cited: Seq<Seq<char>>,
    full: bool,
    style_sorts: bool,
) -> Seq<Seq<char>> {
    if full && style_sorts {
        library
    } else {
        dedup_first(cited)
    }
}

/// Every key of `dedup_first(keys)` comes from `keys`, and conversely; and
/// the result holds no duplicates.
pub proof fn lemma_dedup_first_membership(keys: Seq<Seq<char>>)
    ensures
        forall|k: Seq<char>| #[trigger] dedup_first(keys).contains(k) <==> keys.contains(k),
        dedup_first(keys).no_duplicates(),
    decreases keys.len(),
{
    if keys.len() == 0 {
    } else {
        let front = dedup_first(keys.drop_last());
        let d = dedup_first(keys);
        let last = keys.last();
        lemma_dedup_first_membership(keys.drop_last());
        assert forall|k: Seq<char>| keys.contains(k) implies #[trigger] d.contains(k) by {
            let j = choose|j: int| 0 <= j < keys.len() && keys[j] == k;
            if j < keys.len() - 1 {
                assert(keys.drop_last()[j] == k);
                assert(keys.drop_last().contains(k));
            }
            if keys.drop_last().contains(k) {
                assert(front.contains(k));
                let i = choose|i: int| 0 <= i < front.len() && front[i] == k;
                assert(d[i] == k);
                assert(d.contains(k));
            } else {
                assert(k == last);
                assert(d[d.len() - 1] == k);
                assert(d.contains(k));
            }
        }
        assert forall|k: Seq<char>| #[trigger] d.contains(k) implies keys.contains(k) by {
            let i = choose|i: int| 0 <= i < d.len() && d[i] == k;
            if i < front.len() {
                assert(front[i] == k);
                assert(front.contains(k));
                assert(keys.drop_last().contains(k));
                let j = choose|j: int|
                    0 <= j < keys.drop_last().len() && keys.drop_last()[j] == k;
                assert(keys[j] == k);
                assert(keys.contains(k));
            } else {
                assert(k == last);
                assert(keys[keys.len() - 1] == k);
                assert(keys.contains(k));
            }
        }
        if keys.drop_last().contains(last) {
            assert(d == front);
        } else {
            assert(d == front.push(last));
            assert forall|p: int, q: int| 0 <= p < q < d.len() implies d[p] != d[q] by {
                if q < front.len() {
                    assert(front[p] != front[q]);
                } else {
                    assert(d[q] == last);
                    if d[p] == last {
                        assert(front[p] == last);
                        assert(front.contains(last));
                        assert(false);
                    }
                }
            }
        }
    }
}

/// Deduplication does nothing to a key sequence that already holds no
/// repetition: for such cited keys, the decided order is the cited order
/// itself.
pub proof fn lemma_dedup_first_of_unique(keys: Seq<Seq<char>>)
    requires
        keys.no_duplicates(),
    ensures
        dedup_first(keys) == keys,
    decreases keys.len(),
{
    if keys.len() == 0 {
        assert(dedup_first(keys) =~= keys);
    } else {
        assert(keys.drop_last().no_duplicates());
        lemma_dedup_first_of_unique(keys.drop_last());
        if keys.drop_last().contains(keys.last()) {
            let j = choose|j: int|
                0 <= j < keys.drop_last().len() && keys.drop_last()[j] == keys.last();
            assert(keys[j] == keys[keys.len() - 1]);
            assert(false);
        }
        assert(dedup_first(keys) =~= keys);
    }
}

/// Document citation order is authoritative whenever the style defines no
/// sort of its own, `full` or not: a cited-key sequence without repetition
/// is decided exactly as given, with no additions and no removals.
pub proof fn lemma_document_order_authoritative(
    library: Seq<Seq<char>>,
    cited: Seq<Seq<char>>,
    full: bool,
    style_sorts: bool,
)
    requires
        cited.no_duplicates(),
        !(full && style_sorts),
    ensures
        decided_keys(library, cited, full, style_sorts) == cited,
{
    lemma_dedup_first_of_unique(cited);
}

/// With `full` and a style-defined sort, the decision covers the whole
/// library: every library key is submitted exactly once, and nothing else
/// is.
pub proof fn lemma_full_library_coverage(
    library: Seq<Seq<char>>,
    cited: Seq<Seq<char>>,
)
    requires
        library.no_duplicates(),
    ensures
        decided_keys(library, cited, true, true) == library,
        forall|k: Seq<char>|
            decided_keys(library, cited, true, true).contains(k) <==> library.contains(k),
        decided_keys(library, cited, true, true).no_duplicates(),
{
}

/// Decide the submission plan: validate every cited key against the
/// library, then follow the decision table. A cited key the library does
/// not hold fails the whole call, naming that key; nothing is skipped
/// silently.
pub fn plan_citations(
    library_keys: &Vec<String>,
    cited: &Vec<String>,
    full: bool,
    style_sorts: bool,
) -> (r: Result<Vec<PlannedCitation>, ResolveError>)
    ensures
        r.is_ok() == all_cited_present(views_of(library_keys@), views_of(cited@)),
        (r matches Err(e) ==> {
            let miss = first_missing(views_of(library_keys@), views_of(cited@));
            &&& miss is Some
            &&& e matches ResolveError::MissingEntry(k) && k@ == views_of(cited@)[miss.unwrap()]
        }),
        (r matches Ok(plan) ==> plan_keys(plan@) == decided_keys(
            views_of(library_keys@),
            views_of(cited@),
            full,
            style_sorts,
        )),
        (r matches Ok(plan) ==> forall|i: int|
            0 <= i < plan@.len() ==> plan@[i].hidden == !views_of(cited@).contains(
                plan_keys(plan@)[i],
            )),
{
    let ghost lib_views = views_of(library_keys@);
    let ghost cited_views = views_of(cited@);
    let mut j: usize = 0;
    while j < cited.len()
        invariant
            j <= cited@.len(),
            lib_views == views_of(library_keys@),
            cited_views == views_of(cited@),
            forall|k: int| 0 <= k < j ==> lib_views.contains(cited_views[k]),
        decreases cited@.len() - j,
    {
        if !contains_text(library_keys, cited[j].as_str()) {
            proof {
                assert(0 <= j < cited_views.len() && !lib_views.contains(cited_views[j as int])
                    && (forall|k2: int| 0 <= k2 < j ==> lib_views.contains(cited_views[k2])));
                let w = choose|m: int|
                    0 <= m < cited_views.len() && !lib_views.contains(cited_views[m]) && (
                    forall|k2: int| 0 <= k2 < m ==> lib_views.contains(cited_views[k2]));
                if w < j {
                    assert(lib_views.contains(cited_views[w]));
                    assert(false);
                }
                if w > j {
                    assert(lib_views.contains(cited_views[j as int]));
                    assert(false);
                }
                assert(first_missing(lib_views, cited_views) == Some(j as int));
            }
            return Err(ResolveError::MissingEntry(cited[j].clone()));
        }
        j = j + 1;
    }
    let mut plan: Vec<PlannedCitation> = Vec::new();
    if full && style_sorts {
        let mut i: usize = 0;
        while i < library_keys.len()
            invariant
                i <= library_keys@.len(),
                lib_views == views_of(library_keys@),
                cited_views == views_of(cited@),
                plan_keys(plan@) =~= lib_views.take(i as int),
                forall|k: int|
                    0 <= k < plan@.len() ==> plan@[k].hidden == !cited_views.contains(
                        plan_keys(plan@)[k],
                    ),
            decreases library_keys@.len() - i,
        {
            let ghost old_plan = plan@;
            let visible = contains_text(cited, library_keys[i].as_str());
            plan.push(PlannedCitation { key: library_keys[i].clone(), hidden: !visible });
            proof {
                assert(plan_keys(plan@) =~= plan_keys(old_plan).push(lib_views[i as int]));
                assert(plan_keys(plan@) =~= lib_views.take(i as int + 1));
            }
            i = i + 1;
        }
        proof {
            assert(lib_views.take(lib_views.len() as int) =~= lib_views);
        }
    } else {
        let mut i: usize = 0;
        while i < cited.len()
            invariant
                i <= cited@.len(),
                lib_views == views_of(library_keys@),
                cited_views == views_of(cited@),
                plan_keys(plan@) =~= dedup_first(cited_views.take(i as int)),
                forall|k: int|
                    0 <= k < plan@.len() ==> plan@[k].hidden == !cited_views.contains(
                        plan_keys(plan@)[k],
                    ),
        decreases cited@.len() - i,
        {
            let ghost taken = cited_views.take(i as int + 1);
            let ghost x = cited_views[i as int];
            let mut seen = false;
            let mut k: usize = 0;
            while k < i
                invariant
                    k <= i,
                    i < cited@.len(),
                    cited_views == views_of(cited@),
                    x == cited_views[i as int],
                    seen == cited_views.take(k as int).contains(x),
                decreases i - k,
            {
                if str_eq(cited[k].as_str(), cited[i].as_str()) {
                    seen = true;
                    proof {
                        assert(cited_views.take(k as int + 1)[k as int] == x);
                        assert(cited_views.take(k as int + 1).contains(x));
                    }
                } else {
                    proof {
                        if cited_views.take(k as int).contains(x) {
                            let m = choose|m: int|
                                0 <= m < k && cited_views.take(k as int)[m] == x;
                            assert(cited_views.take(k as int + 1)[m] == x);
                            assert(cited_views.take(k as int + 1).contains(x));
                        } else {
                            assert forall|m: int|
                                0 <= m < k + 1 implies #[trigger] cited_views.take(
                                k as int + 1,
                            )[m] != x by {
                                if m < k {
                                    assert(cited_views.take(k as int)[m] != x);
                                }
                            }
                            assert(!cited_views.take(k as int + 1).contains(x));
                        }
                    }
                }
                k = k + 1;
            }
            proof {
                assert(taken.drop_last() =~= cited_views.take(i as int));
                assert(taken.last() == x);
            }
            if !seen {
                let ghost old_plan = plan@;
                plan.push(PlannedCitation { key: cited[i].clone(), hidden: false });
                proof {
                    assert(plan_keys(plan@) =~= plan_keys(old_plan).push(x));
                    assert(cited_views.contains(x));
                }
            }
            i = i + 1;
            proof {
                assert(plan_keys(plan@) =~= dedup_first(cited_views.take(i as int)));
            }
        }
        proof {
            assert(cited_views.take(cited_views.len() as int) =~= cited_views);
        }
    }
    Ok(plan)
}

} // verus!


//! The link resolver: the item links of an index page and the file link of
//! a page, found in the markup with CSS selectors.

use vstd::prelude::*;

verus! {

/// Selects the downloadable file's link on a page.
pub const FILE_QUERY: &'static str = "div .pad a[href$=mp3]";

/// Selects the container of the item list on the index page.
pub const ITEM_ANCHOR_QUERY: &'static str = "#episodes";

/// Selects the item links on the index page.
pub const ITEM_QUERY: &'static str = "#episodes a";

/// Why a page did not give the links asked of it.
#[derive(Debug, PartialEq, Eq, Structural)]
pub enum ResolveError {
    NotFound,
}

/// The `href` attribute of each element of the HTML document `markup` that
/// the CSS selector `query` matches, in document order (`None` for an
/// element without one); `None` where `query` is no valid selector.
pub uninterp spec fn hrefs_matching(markup: Seq<char>, query: Seq<char>) -> Option<
    Seq<Option<Seq<char>>>,
>;

pub open spec fn opt_view(o: Option<String>) -> Option<Seq<char>> {
    match o {
        Some(s) => Some(s@),
        None => None,
    }
}

pub open spec fn hrefs_view(v: Seq<Option<String>>) -> Seq<Option<Seq<char>>> {
    v.map_values(|o: Option<String>| opt_view(o))
}

pub open spec fn found_view(found: Option<Vec<Option<String>>>) -> Option<Seq<Option<Seq<char>>>> {
    match found {
        Some(v) => Some(hrefs_view(v@)),
        None => None,
    }
}

pub open spec fn strings_view(v: Seq<String>) -> Seq<Seq<char>> {
    v.map_values(|s: String| s@)
}

pub open spec fn unwrap_all(v: Seq<Option<Seq<char>>>) -> Seq<Seq<char>> {
    v.map_values(|o: Option<Seq<char>>| o->0)
}

/// Relies on scraper's `Selector::parse` (an `Err` for an invalid selector),
/// `Html::parse_document`, `Html::select` (the matching elements in document
/// order) and `Element::attr`: the result depends on the two strings alone.
#[verifier::external_body]
fn query_hrefs(markup: &str, query: &str) -> (r: Option<Vec<Option<String>>>)
    ensures
        found_view(r) == hrefs_matching(markup@, query@),
{
    let selector = scraper::Selector::parse(query).ok()?;
    let page = scraper::Html::parse_document(markup);
    Some(page.select(&selector).map(|e| e.value().attr("href").map(|h| h.to_string())).collect())
}

/// The link of the first match, if there is a match and it has a link.
pub open spec fn first_href(found: Option<Seq<Option<Seq<char>>>>) -> Option<Seq<char>> {
    match found {
        Some(v) => if v.len() > 0 {
            v[0]
        } else {
            None
        },
        None => None,
    }
}

/// The item links, where the list's container is present and each item has
/// a link; an empty list is a valid answer.
pub open spec fn item_links_of(
    anchor: Option<Seq<Option<Seq<char>>>>,
    items: Option<Seq<Option<Seq<char>>>>,
) -> Option<Seq<Seq<char>>> {
    match (anchor, items) {
        (Some(a), Some(v)) => if a.len() > 0 && (forall|i: int| 0 <= i < v.len() ==> v[i] is Some) {
            Some(unwrap_all(v))
        } else {
            None
        },
        _ => None,
    }
}

/// The link of the first match among `found`.
pub fn first_link(found: Option<Vec<Option<String>>>) -> (r: Result<String, ResolveError>)
    ensures
        match first_href(found_view(found)) {
            Some(h) => r matches Ok(u) && u@ == h,
            None => r == Err::<String, ResolveError>(ResolveError::NotFound),
        },
{
    match found {
        Some(mut v) => {
            if v.len() == 0 {
                return Err(ResolveError::NotFound);
            }
            match v.remove(0) {
                Some(h) => Ok(h),
                None => Err(ResolveError::NotFound),
            }
        },
        None => Err(ResolveError::NotFound),
    }
}

/// The item links among `items`, given what the container query found.
pub fn links_from(anchor: Option<Vec<Option<String>>>, items: Option<Vec<Option<String>>>) -> (r:
    Result<Vec<String>, ResolveError>)
    ensures
        match item_links_of(found_view(anchor), found_view(items)) {
            Some(ls) => r matches Ok(v) && strings_view(v@) == ls,
            None => r == Err::<Vec<String>, ResolveError>(ResolveError::NotFound),
        },
{
    let has_anchor = match &anchor {
        Some(a) => a.len() > 0,
        None => false,
    };
    if !has_anchor {
        return Err(ResolveError::NotFound);
    }
    if items.is_none() {
        return Err(ResolveError::NotFound);
    }
    let v = items.unwrap();
    let ghost fv = hrefs_view(v@);
    let mut out: Vec<String> = Vec::new();
    let mut k: usize = 0;
    while k < v.len()
        invariant
            k <= v@.len(),
            out@.len() == k,
            fv == hrefs_view(v@),
            found_view(items) == Some(fv),
            forall|i: int| 0 <= i < k ==> fv[i] is Some,
            strings_view(out@) == unwrap_all(fv.subrange(0, k as int)),
        decreases v@.len() - k,
    {
        proof {
            assert(fv[k as int] == opt_view(v@[k as int]));
        }
        match &v[k] {
            Some(h) => {
                let ghost prev = out@;
                out.push(h.clone());
                proof {
                    assert(fv[k as int] == Some(h@));
                    assert(out@ == prev.push(*h));
                    let lhs = strings_view(out@);
                    let rhs = unwrap_all(fv.subrange(0, k as int + 1));
                    let before = unwrap_all(fv.subrange(0, k as int));
                    assert(strings_view(prev) == before);
                    assert(prev.len() == k);
                    assert(lhs.len() == k + 1);
                    assert(rhs.len() == k + 1);
                    assert forall|i: int| 0 <= i < k + 1 implies lhs[i] == rhs[i] by {
                        assert(lhs[i] == out@[i]@);
                        assert(rhs[i] == fv[i]->0);
                        if i < k {
                            assert(out@[i] == prev[i]);
                            assert(strings_view(prev)[i] == prev[i]@);
                            assert(before[i] == fv[i]->0);
                        }
                    }
                    assert(lhs =~= rhs);
                }
            },
            None => {
                proof {
                    assert(fv[k as int] is None);
                    assert(found_view(items) == Some(fv));
                    assert(!(forall|i: int| 0 <= i < fv.len() ==> fv[i] is Some));
                }
                return Err(ResolveError::NotFound);
            },
        }
        k = k + 1;
    }
    proof {
        assert(fv.subrange(0, k as int) =~= fv);
        assert(found_view(items) == Some(fv));
    }
    Ok(out)
}

/// The direct file link on a page.
pub fn resolve_file_url(markup: &str) -> (r: Result<String, ResolveError>)
    ensures
        match first_href(hrefs_matching(markup@, FILE_QUERY@)) {
            Some(h) => r matches Ok(u) && u@ == h,
            None => r == Err::<String, ResolveError>(ResolveError::NotFound),
        },
{
    first_link(query_hrefs(markup, FILE_QUERY))
}

/// The item links of an index page, in page order.
pub fn list_item_links(markup: &str) -> (r: Result<Vec<String>, ResolveError>)
    ensures
        match item_links_of(
            hrefs_matching(markup@, ITEM_ANCHOR_QUERY@),
            hrefs_matching(markup@, ITEM_QUERY@),
        ) {
            Some(ls) => r matches Ok(v) && strings_view(v@) == ls,
            None => r == Err::<Vec<String>, ResolveError>(ResolveError::NotFound),
        },
{
    let anchor = query_hrefs(markup, ITEM_ANCHOR_QUERY);
    let items = query_hrefs(markup, ITEM_QUERY);
    links_from(anchor, items)
}

} // verus!

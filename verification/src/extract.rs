//! HTML link and title extraction.
//!
//! The HTML parse itself is delegated to `scraper` through one trusted
//! wrapper that hands back the raw `href` values and the title text; the
//! resolution of each href against the base URL and its canonicalization
//! are verified on top of it.

use crate::urlnorm::is_canonical_url;
use crate::urlnorm::normalize_url;
use crate::urlnorm::resolve_url;
use crate::urlnorm::spec_canonical_of;
use crate::urlnorm::spec_join_ok;
use crate::urlnorm::spec_joined;
use crate::urlnorm::spec_norm_ok;
use vstd::prelude::*;

verus! {

/// The `href` values of the document's `a[href]` elements, in document
/// order.
pub uninterp spec fn spec_hrefs(html: Seq<char>) -> Seq<Seq<char>>;

/// The first text node of the document's first `title` element, if any.
pub uninterp spec fn spec_html_title(html: Seq<char>) -> Option<Seq<char>>;

/// Relies on scraper's `Html::parse_document`, `Selector::parse`,
/// `Html::select`, `ElementRef::attr` and `ElementRef::text`: what they
/// yield depends on the document text alone.  The two constant selectors
/// are valid CSS, so the `unwrap` calls cannot fail.
#[verifier::external_body]
fn html_hrefs_and_title(html: &str) -> (r: (Vec<String>, Option<String>))
    ensures
        r.0.deep_view() == spec_hrefs(html@),
        r.1.deep_view() == spec_html_title(html@),
{
    let doc = scraper::Html::parse_document(html);
    let title_sel = scraper::Selector::parse("title").unwrap();
    let title = doc.select(&title_sel).next().and_then(|el| el.text().next()).map(|s| {
        s.to_string()
    });
    let link_sel = scraper::Selector::parse("a[href]").unwrap();
    let hrefs = doc.select(&link_sel).filter_map(|el| el.value().attr("href")).map(|h| {
        h.to_string()
    }).collect();
    (hrefs, title)
}

/// The canonical link one href contributes: the href resolved against
/// the base, kept only when it resolves and is http(s).
pub open spec fn spec_link_of(base: Seq<char>, href: Seq<char>) -> Option<Seq<char>> {
    if spec_join_ok(base, href) && spec_norm_ok(spec_joined(base, href)) {
        Some(spec_canonical_of(spec_joined(base, href)))
    } else {
        None
    }
}

/// The canonical links of a list of hrefs, in order, duplicates kept.
pub open spec fn spec_links(base: Seq<char>, hrefs: Seq<Seq<char>>) -> Seq<Seq<char>>
    decreases hrefs.len(),
{
    if hrefs.len() == 0 {
        Seq::empty()
    } else {
        let rest = spec_links(base, hrefs.drop_first());
        match spec_link_of(base, hrefs[0]) {
            Some(l) => seq![l] + rest,
            None => rest,
        }
    }
}

/// Extract the first title and the absolute, canonical http(s) links of
/// an HTML document, resolved against `base_url`, in document order and
/// without de-duplication.
pub fn extract_links_and_title(html: &str, base_url: &str) -> (r: (Vec<String>, Option<String>))
    ensures
        r.0.deep_view() == spec_links(base_url@, spec_hrefs(html@)),
        r.1.deep_view() == spec_html_title(html@),
        forall|k: int|
            0 <= k < r.0.deep_view().len() ==> is_canonical_url(#[trigger] r.0.deep_view()[k]),
{
    let (hrefs, title) = html_hrefs_and_title(html);
    let ghost hv = hrefs.deep_view();
    let ghost base_v = base_url@;
    let mut links: Vec<String> = Vec::new();
    let n = hrefs.len();
    let mut i: usize = 0;
    proof {
        assert(links.deep_view() =~~= Seq::<Seq<char>>::empty());
        assert(hv.skip(0) =~= hv);
    }
    while i < n
        invariant
            0 <= i <= n == hrefs@.len(),
            hv == hrefs.deep_view(),
            base_v == base_url@,
            spec_links(base_v, hv) == links.deep_view() + spec_links(base_v, hv.skip(i as int)),
            forall|k: int|
                0 <= k < links.deep_view().len() ==> is_canonical_url(
                    #[trigger] links.deep_view()[k],
                ),
        decreases n - i,
    {
        let ghost href = hv[i as int];
        proof {
            assert(hrefs@[i as int].deep_view() == hrefs@[i as int]@);
            assert(hv.skip(i as int)[0] == href);
            assert(hv.skip(i as int).drop_first() =~= hv.skip(i + 1));
        }
        let ghost before = links.deep_view();
        match resolve_url(base_url, hrefs[i].as_str()) {
            None => {},
            Some(j) => {
                match normalize_url(j.as_str()) {
                    None => {},
                    Some(c) => {
                        let ghost cv = c@;
                        links.push(c);
                        proof {
                            assert(links.deep_view() =~~= before.push(cv));
                            assert(before.push(cv) =~~= before + seq![cv]);
                            assert(spec_links(base_v, hv) =~~= links.deep_view() + spec_links(
                                base_v,
                                hv.skip(i + 1),
                            ));
                        }
                    },
                }
            },
        }
        i = i + 1;
    }
    proof {
        assert(hv.skip(n as int) =~= Seq::<Seq<char>>::empty());
        assert(links.deep_view() =~~= links.deep_view() + spec_links(base_v, hv.skip(n as int)));
    }
    (links, title)
}

} // verus!

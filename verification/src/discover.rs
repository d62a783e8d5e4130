//! Script discovery: the `src` attributes of the `script` elements of a
//! served HTML page, filtered to host-relative paths and rewritten into
//! companion source-map URLs.

use vstd::prelude::*;

use crate::text::{has_prefix, replace_js, replace_js_str, starts_with};

verus! {

/// The `src` attribute values of the `script` elements of `body`, in
/// document order, one entry per element that carries the attribute.
pub uninterp spec fn script_srcs(body: Seq<char>) -> Seq<Seq<char>>;

/// Relies on scraper: `Html::parse_document`, `Selector::parse` on the
/// constant selector `script` (which never fails), `Html::select` and
/// `Element::attr`. The attribute values, in document order, are a function
/// of the document text alone.
#[verifier::external_body]
fn script_src_values(body: &str) -> (r: Vec<String>)
    ensures
        r.deep_view() == script_srcs(body@),
{
    let doc = scraper::Html::parse_document(body);
    let sel = scraper::Selector::parse("script").expect("constant selector");
    let mut out: Vec<String> = Vec::new();
    for el in doc.select(&sel) {
        if let Some(src) = el.value().attr("src") {
            out.push(src.to_string());
        }
    }
    out
}

/// The absolute source-map URL derived from a host-relative script path.
pub open spec fn map_url(host: Seq<char>, src: Seq<char>) -> Seq<char> {
    host + replace_js(src)
}

/// A `src` value is host-relative when it begins with `/` but not with
/// `//`: a protocol-relative URL names another host and is discarded.
pub open spec fn host_relative(src: Seq<char>) -> bool {
    starts_with(src, seq!['/']) && !starts_with(src, seq!['/', '/'])
}

/// The map URLs derived from `srcs`: one per host-relative entry, in
/// order, each the origin followed by the rewritten path.
pub open spec fn discovered_urls(host: Seq<char>, srcs: Seq<Seq<char>>) -> Seq<Seq<char>>
    decreases srcs.len(),
{
    if srcs.len() == 0 {
        Seq::empty()
    } else {
        let rest = discovered_urls(host, srcs.drop_last());
        if host_relative(srcs.last()) {
            rest.push(map_url(host, srcs.last()))
        } else {
            rest
        }
    }
}

/// Every discovered URL is the origin followed by the `.js` -> `.js.map`
/// rewrite of some host-relative script path: one that begins with `/` but
/// not with `//`.
pub proof fn lemma_discovered_urls_form(host: Seq<char>, srcs: Seq<Seq<char>>)
    ensures
        forall|k: int| 0 <= k < discovered_urls(host, srcs).len() ==> exists|j: int|
            0 <= j < srcs.len() && host_relative(srcs[j]) && #[trigger] discovered_urls(
                host,
                srcs,
            )[k] == host + replace_js(srcs[j]),
    decreases srcs.len(),
{
    if srcs.len() > 0 {
        lemma_discovered_urls_form(host, srcs.drop_last());
        let rest = discovered_urls(host, srcs.drop_last());
        let all = discovered_urls(host, srcs);
        assert forall|k: int| 0 <= k < all.len() implies exists|j: int|
            0 <= j < srcs.len() && host_relative(srcs[j]) && #[trigger] all[k] == host
                + replace_js(srcs[j]) by {
            if k < rest.len() {
                let j = choose|j: int|
                    0 <= j < srcs.drop_last().len() && host_relative(srcs.drop_last()[j])
                        && #[trigger] rest[k] == host + replace_js(srcs.drop_last()[j]);
                assert(srcs.drop_last()[j] == srcs[j]);
                assert(0 <= j < srcs.len() && host_relative(srcs[j]) && all[k] == host
                    + replace_js(srcs[j]));
            } else {
                let j = srcs.len() - 1;
                assert(0 <= j < srcs.len() && host_relative(srcs[j]) && all[k] == host
                    + replace_js(srcs[j]));
            }
        }
    }
}

/// The source-map URLs to try for `body`, served by `host`: for each
/// `script` element whose `src` is host-relative (begins with `/` but not
/// `//`), the origin followed by the path with `.js` replaced by
/// `.js.map`. Scripts with absolute or protocol-relative URLs, inline
/// scripts, and scripts without `src` contribute nothing.
pub fn find_scripts(host: &str, body: &str) -> (r: Vec<String>)
    ensures
        r.deep_view() == discovered_urls(host@, script_srcs(body@)),
{
    let srcs = script_src_values(body);
    let ghost dv = srcs.deep_view();
    let mut out: Vec<String> = Vec::new();
    let n = srcs.len();
    proof {
        assert(dv.len() == n);
    }
    let mut i: usize = 0;
    while i < n
        invariant
            i <= n,
            n == srcs@.len(),
            dv == srcs.deep_view(),
            dv == script_srcs(body@),
            out.deep_view() == discovered_urls(host@, dv.take(i as int)),
        decreases n - i,
    {
        proof {
            assert(dv.take(i + 1).drop_last() =~= dv.take(i as int));
            assert(dv.take(i + 1).last() == dv[i as int]);
            assert(dv[i as int] == srcs@[i as int]@);
        }
        let s: &String = &srcs[i];
        proof {
            reveal_strlit("/");
            reveal_strlit("//");
            assert("/"@ =~= seq!['/']);
            assert("//"@ =~= seq!['/', '/']);
        }
        if has_prefix(s.as_str(), "/") && !has_prefix(s.as_str(), "//") {
            let rewritten = replace_js_str(s.as_str());
            let url = host.to_owned().concat(rewritten.as_str());
            let ghost prev = out.deep_view();
            out.push(url);
            proof {
                assert(out.deep_view() =~= prev.push(url@));
            }
        }
        i += 1;
    }
    proof {
        assert(dv.take(n as int) =~= dv);
    }
    out
}

} // verus!

//! The download cascade's verified pieces: matching a newly discovered
//! entry's title against the download rules, sanitizing the matched title
//! into a filesystem-safe subdirectory name, turning a detail page into the
//! list of image references, and deriving the `Referer` host of a link.

use vstd::prelude::*;
use vstd::string::StringExecFns;
use crate::models::{Down, DownV, down_views, Images, ImagesV};
use crate::text::{contains_seq, contains_str, sanitize_char, replace_reserved, dec_str, dec_string};
use crate::extract::{tag_stripped_of, strip_tags, img_tags_of, img_tags, host_of, url_host};

verus! {

/// The destination of the first rule whose `title` is a substring of the
/// entry's title; empty when no rule matches.
pub open spec fn first_rule_path(title: Seq<char>, rules: Seq<DownV>) -> Seq<char>
    decreases rules.len(),
{
    if rules.len() == 0 {
        Seq::empty()
    } else if contains_seq(title, rules[0].title) {
        rules[0].path
    } else {
        first_rule_path(title, rules.drop_first())
    }
}

proof fn lemma_first_rule_path_at(title: Seq<char>, rules: Seq<DownV>, i: int)
    requires
        0 <= i < rules.len(),
        contains_seq(title, rules[i].title),
        forall|k: int| 0 <= k < i ==> !contains_seq(title, rules[k].title),
    ensures
        first_rule_path(title, rules) == rules[i].path,
    decreases i,
{
    if i == 0 {
    } else {
        lemma_first_rule_path_at(title, rules.drop_first(), i - 1);
    }
}

proof fn lemma_first_rule_path_none(title: Seq<char>, rules: Seq<DownV>)
    requires
        forall|k: int| 0 <= k < rules.len() ==> !contains_seq(title, rules[k].title),
    ensures
        first_rule_path(title, rules) == Seq::<char>::empty(),
    decreases rules.len(),
{
    if rules.len() > 0 {
        lemma_first_rule_path_none(title, rules.drop_first());
    }
}

/// The destination path for a title: that of the first matching download
/// rule, or the empty string when no rule matches (first-match-wins; rule
/// order is significant).
pub fn check_download(title: &str, rules: &Vec<Down>) -> (r: String)
    ensures
        r@ == first_rule_path(title@, down_views(rules@)),
{
    let ghost rv = down_views(rules@);
    let mut i: usize = 0;
    while i < rules.len()
        invariant
            i <= rules@.len(),
            rv == down_views(rules@),
            forall|k: int| 0 <= k < i ==> !contains_seq(title@, rv[k].title),
        decreases rules@.len() - i,
    {
        if contains_str(title, rules[i].title.as_str()) {
            proof {
                lemma_first_rule_path_at(title@, rv, i as int);
            }
            return rules[i].path.clone();
        }
        i = i + 1;
    }
    proof {
        lemma_first_rule_path_none(title@, rv);
    }
    let r = String::new();
    assert(r@ =~= Seq::<char>::empty());
    r
}

/// A matched title as a filesystem-safe subdirectory name: markup tags are
/// stripped, then every filesystem-reserved character becomes the
/// placeholder.
pub open spec fn sanitized_subpath(title: Seq<char>) -> Seq<char> {
    tag_stripped_of(title).map_values(|c: char| sanitize_char(c))
}

/// Sanitizes a matched title into the subdirectory name of its downloads.
pub fn sanitize_subpath(title: &str) -> (r: String)
    ensures
        r@ == sanitized_subpath(title@),
{
    let stripped = strip_tags(title);
    replace_reserved(stripped.as_str())
}

/// The lazy-load fallback marker: an `img` element is a candidate only when
/// its `onerror` attribute carries it.
pub open spec fn fallback_marker() -> Seq<char> {
    "reload_img(this)"@
}

/// The `(src, onerror)` pairs of a detail page whose `onerror` carries the
/// fallback marker, in document order.
pub open spec fn image_candidates(h: Seq<char>) -> Seq<(Seq<char>, Seq<char>)> {
    img_tags_of(h).filter(|p: (Seq<char>, Seq<char>)| contains_seq(p.1, fallback_marker()))
}

/// The `k`-th (0-based) image reference of a cascade pass: fetched from
/// `src` with the page's host as referrer, written as `path`/`subpath`/
/// `{k+1}.jpg`.
pub open spec fn image_ref(
    src: Seq<char>,
    k: int,
    path: Seq<char>,
    title: Seq<char>,
    host: Seq<char>,
) -> ImagesV {
    ImagesV {
        link: src,
        refferer: host,
        file_name: dec_str(k + 1) + ".jpg"@,
        path: path,
        subpath: sanitized_subpath(title),
    }
}

/// Every image reference of a detail page, with 1-based sequential file
/// names in document order.
pub open spec fn image_list(
    h: Seq<char>,
    path: Seq<char>,
    title: Seq<char>,
    host: Seq<char>,
) -> Seq<ImagesV> {
    image_candidates(h).map(|k: int, p: (Seq<char>, Seq<char>)| image_ref(p.0, k, path, title, host))
}

/// The ghost images of a whole image-reference list.
pub open spec fn images_views(s: Seq<Images>) -> Seq<ImagesV> {
    s.map_values(|im: Images| im@)
}

/// Extracts the image references of a fetched detail page: candidate images
/// (those carrying the fallback marker) become files `1.jpg`, `2.jpg`, ... in
/// document order under the sanitized title.
pub fn parse_dcimage(html: &str, path: &str, title: &str, host: &str) -> (r: Vec<Images>)
    ensures
        images_views(r@) == image_list(html@, path@, title@, host@),
{
    let subpath = sanitize_subpath(title);
    let tags = img_tags(html);
    let ghost tv = tags.deep_view();
    let mut out: Vec<Images> = Vec::new();
    let mut i: usize = 0;
    proof {
        reveal(Seq::filter);
        assert(tv.subrange(0, 0) =~= Seq::<(Seq<char>, Seq<char>)>::empty());
        assert(images_views(out@) =~= image_list(html@, path@, title@, host@).subrange(0, 0));
        assert(tv.subrange(0, 0).filter(
            |p: (Seq<char>, Seq<char>)| contains_seq(p.1, fallback_marker()),
        ) =~= Seq::<(Seq<char>, Seq<char>)>::empty());
    }
    while i < tags.len()
        invariant
            i <= tags@.len(),
            tv == tags.deep_view(),
            subpath@ == sanitized_subpath(title@),
            out@.len() == tv.subrange(0, i as int).filter(
                |p: (Seq<char>, Seq<char>)| contains_seq(p.1, fallback_marker()),
            ).len(),
            images_views(out@) == tv.subrange(0, i as int).filter(
                |p: (Seq<char>, Seq<char>)| contains_seq(p.1, fallback_marker()),
            ).map(|k: int, p: (Seq<char>, Seq<char>)| image_ref(p.0, k, path@, title@, host@)),
        decreases tags@.len() - i,
    {
        let ghost pred = |p: (Seq<char>, Seq<char>)| contains_seq(p.1, fallback_marker());
        let ghost pre = tv.subrange(0, i as int);
        let ghost pre1 = tv.subrange(0, i + 1);
        proof {
            reveal(Seq::filter);
            assert(pre1.drop_last() =~= pre);
            assert(pre1.last() == tv[i as int]);
            assert(tv[i as int] == (tags@[i as int].0@, tags@[i as int].1@));
        }
        let pair = &tags[i];
        if contains_str(pair.1.as_str(), "reload_img(this)") {
            let num = out.len() + 1;
            let mut fname = dec_string(num);
            fname.append(".jpg");
            let im = Images {
                link: pair.0.clone(),
                refferer: host.to_owned(),
                file_name: fname,
                path: path.to_owned(),
                subpath: subpath.clone(),
            };
            let ghost before = images_views(out@);
            out.push(im);
            proof {
                assert(pre1.filter(pred) =~= pre.filter(pred).push(tv[i as int]));
                assert(images_views(out@) =~= before.push(out@[out@.len() - 1]@));
                assert(out@[out@.len() - 1]@ == image_ref(
                    tv[i as int].0,
                    before.len() as int,
                    path@,
                    title@,
                    host@,
                ));
                assert(images_views(out@) =~= pre1.filter(pred).map(
                    |k: int, p: (Seq<char>, Seq<char>)| image_ref(p.0, k, path@, title@, host@),
                ));
            }
        } else {
            proof {
                assert(pre1.filter(pred) =~= pre.filter(pred));
            }
        }
        i = i + 1;
    }
    proof {
        assert(tv.subrange(0, tags@.len() as int) =~= tv);
    }
    out
}

/// The `Referer` URL of a detail link: `https://` before the link's host,
/// when the link parses as a URL with a host.
pub open spec fn referrer_of(link: Seq<char>) -> Option<Seq<char>> {
    match host_of(link) {
        Some(h) => Some("https://"@ + h),
        None => None,
    }
}

/// Builds the cascade's `Referer` URL from an entry's link; `None` when the
/// link has no host.
pub fn detail_referrer(link: &str) -> (r: Option<String>)
    ensures
        r.deep_view() == referrer_of(link@),
{
    match url_host(link) {
        Some(h) => {
            let mut s = String::from_str("https://");
            s.append(h.as_str());
            Some(s)
        },
        None => None,
    }
}

} // verus!

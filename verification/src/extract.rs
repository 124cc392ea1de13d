//! The boundary to the outside crates that read markup and dates: scraper,
//! regex, url and chrono. Each extraction is a trusted wrapper whose result is
//! a function of its arguments alone and is therefore given a name; the
//! verified parsers state their own contracts over these names.

use vstd::prelude::*;
use scraper::{Html, Selector};

verus! {

/// The `value` attribute of the `input#list_url` element of a listing page,
/// when the element is present.
pub uninterp spec fn dc_list_url_of(h: Seq<char>) -> Option<Seq<char>>;

/// Relies on scraper's `Html::parse_fragment`, `Html::select` and
/// `ElementRef::attr`: the first `input#list_url` element's `value`.
#[verifier::external_body]
pub(crate) fn dc_list_url(html: &str) -> (r: Option<String>)
    ensures
        r.deep_view() == dc_list_url_of(html@),
{
    let frag = Html::parse_fragment(html);
    let sel = Selector::parse(r#"input[id="list_url"]"#).unwrap();
    frag.select(&sel).next().and_then(|e| e.attr("value")).map(|v| v.to_string())
}

/// One listing row per `tr.ub-content` element: the title cell's inner markup
/// and `href`, the date cell's `title` attribute and inner markup, and the
/// writer cell's `data-nick`; a missing cell is `None`.
pub uninterp spec fn dc_rows_of(h: Seq<char>) -> Seq<
    (Option<(Seq<char>, Seq<char>)>, Option<(Seq<char>, Seq<char>)>, Seq<char>),
>;

/// Relies on scraper's `Html::parse_fragment`, `select`, `inner_html` and
/// `attr`: the rows of a listing page, one triple per `tr.ub-content`.
#[verifier::external_body]
pub(crate) fn dc_rows(html: &str) -> (r: Vec<
    (Option<(String, String)>, Option<(String, String)>, String),
>)
    ensures
        r.deep_view() == dc_rows_of(html@),
{
    let frag = Html::parse_fragment(html);
    let row = Selector::parse("tr.ub-content").unwrap();
    let title = Selector::parse("td.gall_tit > a").unwrap();
    let date = Selector::parse("td.gall_date").unwrap();
    let nick = Selector::parse("td.gall_writer").unwrap();
    frag.select(&row).map(|e| (
        e.select(&title).next().map(|a| (a.inner_html(), a.attr("href").unwrap_or_default().to_string())),
        e.select(&date).next().map(|d| (d.attr("title").unwrap_or_default().to_string(), d.inner_html())),
        e.select(&nick).next().and_then(|w| w.attr("data-nick")).unwrap_or_default().to_string(),
    )).collect()
}

/// One pair per `div.li h3.title > a` element: its inner markup and `href`.
pub uninterp spec fn fm_rows_of(h: Seq<char>) -> Seq<(Seq<char>, Seq<char>)>;

/// Relies on scraper's `Html::parse_fragment`, `select`, `inner_html` and
/// `attr`: the anchors of a listing page, one pair per anchor.
#[verifier::external_body]
pub(crate) fn fm_rows(html: &str) -> (r: Vec<(String, String)>)
    ensures
        r.deep_view() == fm_rows_of(html@),
{
    let frag = Html::parse_fragment(html);
    let part = Selector::parse("div.li").unwrap();
    let a = Selector::parse("h3.title > a").unwrap();
    frag.select(&part)
        .flat_map(|e| {
            e.select(&a).map(|li| (li.inner_html(), li.attr("href").unwrap_or_default().to_string())).collect::<Vec<_>>()
        })
        .collect()
}

/// One row per `tbody > tr` of each `table.tbl_type01`: the first
/// `td.t_left > a` (inner markup and `href`) and the first `td > span.date`
/// (inner markup); a missing cell is `None`.
pub uninterp spec fn mp_rows_of(h: Seq<char>) -> Seq<
    (Option<(Seq<char>, Seq<char>)>, Option<Seq<char>>),
>;

/// Relies on scraper's `Html::parse_fragment`, `select`, `inner_html` and
/// `attr`: the table rows of a listing page.
#[verifier::external_body]
pub(crate) fn mp_rows(html: &str) -> (r: Vec<(Option<(String, String)>, Option<String>)>)
    ensures
        r.deep_view() == mp_rows_of(html@),
{
    let frag = Html::parse_fragment(html);
    let table = Selector::parse("table.tbl_type01").unwrap();
    let tr = Selector::parse("tbody > tr").unwrap();
    let a = Selector::parse("td.t_left > a").unwrap();
    let date = Selector::parse("td > span.date").unwrap();
    frag.select(&table)
        .flat_map(|t| {
            t.select(&tr).map(|r| (
                r.select(&a).next().map(|x| (x.inner_html(), x.attr("href").unwrap_or_default().to_string())),
                r.select(&date).next().map(|d| d.inner_html()),
            )).collect::<Vec<_>>()
        })
        .collect()
}

/// One item per `li.items` of each `div.lists_today_contxt`: the first anchor
/// (inner markup and `href`), or `None` when the item has no anchor.
pub uninterp spec fn mp_low_rows_of(h: Seq<char>) -> Seq<Option<(Seq<char>, Seq<char>)>>;

/// Relies on scraper's `Html::parse_fragment`, `select`, `inner_html` and
/// `attr`: the list items of the low-band listing page.
#[verifier::external_body]
pub(crate) fn mp_low_rows(html: &str) -> (r: Vec<Option<(String, String)>>)
    ensures
        r.deep_view() == mp_low_rows_of(html@),
{
    let frag = Html::parse_fragment(html);
    let div = Selector::parse("div.lists_today_contxt").unwrap();
    let li = Selector::parse("li.items").unwrap();
    let a = Selector::parse("a").unwrap();
    frag.select(&div)
        .flat_map(|d| {
            d.select(&li).map(|e| {
                e.select(&a).next().map(|x| (x.inner_html(), x.attr("href").unwrap_or_default().to_string()))
            }).collect::<Vec<_>>()
        })
        .collect()
}

/// One pair per `img` element of a detail page: its `src` and `onerror`
/// attributes, each empty when absent.
pub uninterp spec fn img_tags_of(h: Seq<char>) -> Seq<(Seq<char>, Seq<char>)>;

/// Relies on scraper's `Html::parse_fragment`, `select` and `attr`: the image
/// elements of a detail page in document order.
#[verifier::external_body]
pub(crate) fn img_tags(html: &str) -> (r: Vec<(String, String)>)
    ensures
        r.deep_view() == img_tags_of(html@),
{
    let frag = Html::parse_fragment(html);
    let img = Selector::parse("img").unwrap();
    frag.select(&img)
        .map(|e| (
            e.attr("src").unwrap_or_default().to_string(),
            e.attr("onerror").unwrap_or_default().to_string(),
        ))
        .collect()
}

/// `s` with every markup tag (a `<`, a shortest run of non-newline
/// characters, then `>`) removed.
pub uninterp spec fn tag_stripped_of(s: Seq<char>) -> Seq<char>;

/// Relies on regex's `Regex::replace_all` with the pattern `<.*?>`: removes
/// embedded markup tags. The result depends on the characters alone.
#[verifier::external_body]
pub(crate) fn strip_tags(s: &str) -> (r: String)
    ensures
        r@ == tag_stripped_of(s@),
{
    let re = regex::Regex::new(r"<.*?>").unwrap();
    re.replace_all(s, "").into_owned()
}

/// The host part of a URL, when the URL parses and has one.
pub uninterp spec fn host_of(u: Seq<char>) -> Option<Seq<char>>;

/// Relies on url's `Url::parse` and `Url::host_str`: the host of an absolute
/// URL. The result depends on the characters alone.
#[verifier::external_body]
pub(crate) fn url_host(u: &str) -> (r: Option<String>)
    ensures
        r.deep_view() == host_of(u@),
{
    match url::Url::parse(u) {
        Ok(p) => p.host_str().map(|h| h.to_string()),
        Err(_) => None,
    }
}

/// The epoch seconds of a `%Y-%m-%d %H:%M:%S` date string, when it parses.
pub uninterp spec fn post_time_of(s: Seq<char>) -> Option<i64>;

/// Relies on chrono's `NaiveDateTime::parse_from_str` (format
/// `%Y-%m-%d %H:%M:%S`), `and_utc` and `timestamp`. The result depends on the
/// characters alone.
#[verifier::external_body]
pub(crate) fn post_time(s: &str) -> (r: Option<i64>)
    ensures
        r == post_time_of(s@),
{
    match chrono::NaiveDateTime::parse_from_str(s, "%Y-%m-%d %H:%M:%S") {
        Ok(t) => Some(t.and_utc().timestamp()),
        Err(_) => None,
    }
}

} // verus!

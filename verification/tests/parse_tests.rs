use board_watch::models::Nick;
use board_watch::parse::{parse_dc, parse_fm, parse_mp, parse_mp_part_low};
use board_watch::route::{source_kind, SourceKind};

fn nick(name: &str) -> Nick {
    Nick { nick: name.to_string() }
}

// epoch-based dates keep expected timestamps easy to state:
// "1970-01-03 00:00:00" parses to 172800 seconds.
const NOW: i64 = 200_000;

fn dc_page() -> String {
    {
        let mut html = String::new();
        html.push_str(r#"<input id="list_url" value="https://gall.example.com/board/lists">"#);
        html.push_str(r#"<table><tbody>"#);
        // a recent post by an ordinary writer: kept
        html.push_str(r#"<tr class="ub-content">"#);
        html.push_str(r#"<td class="gall_tit"><a href="/board/1"><em>Cat</em>Real Title</a></td>"#);
        html.push_str(r#"<td class="gall_date" title="1970-01-03 00:00:00">01-03</td>"#);
        html.push_str(r#"<td class="gall_writer" data-nick="writer"></td>"#);
        html.push_str(r#"</tr>"#);
        // an unparseable date: the raw link is logged
        html.push_str(r#"<tr class="ub-content">"#);
        html.push_str(r#"<td class="gall_tit"><a href="/board/2">Bad Date</a></td>"#);
        html.push_str(r#"<td class="gall_date" title="yesterday">??</td>"#);
        html.push_str(r#"<td class="gall_writer" data-nick="writer"></td>"#);
        html.push_str(r#"</tr>"#);
        // an excluded nickname: dropped
        html.push_str(r#"<tr class="ub-content">"#);
        html.push_str(r#"<td class="gall_tit"><a href="/board/3">Spam Post</a></td>"#);
        html.push_str(r#"<td class="gall_date" title="1970-01-03 01:00:00">01-03</td>"#);
        html.push_str(r#"<td class="gall_writer" data-nick="spammer"></td>"#);
        html.push_str(r#"</tr>"#);
        // older than the expiry window: dropped
        html.push_str(r#"<tr class="ub-content">"#);
        html.push_str(r#"<td class="gall_tit"><a href="/board/4">Old Post</a></td>"#);
        html.push_str(r#"<td class="gall_date" title="1970-01-01 00:00:00">01-01</td>"#);
        html.push_str(r#"<td class="gall_writer" data-nick="writer"></td>"#);
        html.push_str(r#"</tr>"#);
        html.push_str(r#"</tbody></table>"#);
        html
    }
}

#[test]
fn dc_parser_keeps_recent_rows_and_logs_bad_dates() {
    let nicks = vec![nick("spammer")];
    let (entries, logs) = parse_dc(&dc_page(), "https://fallback.example/x", &nicks, NOW);
    assert_eq!(entries.len(), 1);
    assert_eq!(entries[0].title, "Real Title");
    assert_eq!(entries[0].link, "https://gall.example.com/board/1");
    assert_eq!(entries[0].datetime, "01-03");
    assert_eq!(entries[0].timestamp, NOW);
    assert_eq!(entries[0].more, "디시");
    assert!(entries[0].new);
    assert_eq!(logs, vec!["/board/2".to_string()]);
}

#[test]
fn dc_parser_cleans_title_markup_and_whitespace() {
    let html = {
        let mut html = String::new();
        html.push_str(r#"<input id="list_url" value="https://gall.example.com/b">"#);
        html.push_str(r#"<table><tbody><tr class="ub-content">"#);
        html.push_str("<td class=\"gall_tit\"><a href=\"/p\"><em>One</em><em>Two</em>\tTail\n</a></td>");
        html.push_str(r#"<td class="gall_date" title="1970-01-03 00:00:00">d</td>"#);
        html.push_str(r#"<td class="gall_writer" data-nick="w"></td>"#);
        html.push_str(r#"</tr></tbody></table>"#);
        html
    };
    let (entries, logs) = parse_dc(&html, "", &vec![], NOW);
    assert_eq!(entries.len(), 1);
    assert_eq!(entries[0].title, "Tail");
    assert!(logs.is_empty());
}

#[test]
fn dc_parser_falls_back_to_site_host() {
    let html = {
        let mut html = String::new();
        html.push_str(r#"<table><tbody><tr class="ub-content">"#);
        html.push_str(r#"<td class="gall_tit"><a href="/p/9">T</a></td>"#);
        html.push_str(r#"<td class="gall_date" title="1970-01-03 00:00:00">d</td>"#);
        html.push_str(r#"<td class="gall_writer" data-nick="w"></td>"#);
        html.push_str(r#"</tr></tbody></table>"#);
        html
    };
    let (entries, _) = parse_dc(&html, "https://site.example.org/list", &vec![], NOW);
    assert_eq!(entries.len(), 1);
    assert_eq!(entries[0].link, "https://site.example.org/p/9");
}

#[test]
fn fm_parser_yields_one_entry_per_anchor() {
    let html = {
        let mut html = String::new();
        html.push_str(r#"<div class="li"><h3 class="title"><a href="https://fm.example/1">First</a></h3></div>"#);
        html.push_str(r#"<div class="li"><h3 class="title"><a href="https://fm.example/2">Second</a></h3></div>"#);
        html
    };
    let entries = parse_fm(&html, 777);
    assert_eq!(entries.len(), 2);
    assert_eq!(entries[0].title, "First");
    assert_eq!(entries[0].link, "https://fm.example/1");
    assert_eq!(entries[0].timestamp, 777);
    assert_eq!(entries[0].datetime, "");
    assert_eq!(entries[0].more, "펨코");
    assert!(entries[0].new);
    assert_eq!(entries[1].title, "Second");
    assert_eq!(entries[1].link, "https://fm.example/2");
}

#[test]
fn mp_parser_skips_rows_without_date_cell() {
    let html = {
        let mut html = String::new();
        html.push_str(r#"<table class="tbl_type01"><tbody>"#);
        html.push_str(r#"<tr><td class="t_left"><a href="/p/1">Post One</a></td>"#);
        html.push_str(r#"<td><span class="date">2024-01-01</span></td></tr>"#);
        html.push_str(r#"<tr><td class="t_left"><a href="/p/2">Post Two</a></td><td>nodate</td></tr>"#);
        html.push_str(r#"</tbody></table>"#);
        html
    };
    let entries = parse_mp(&html, 42);
    assert_eq!(entries.len(), 1);
    assert_eq!(entries[0].title, "Post One");
    assert_eq!(entries[0].link, "/p/1");
    assert_eq!(entries[0].datetime, "2024-01-01");
    assert_eq!(entries[0].timestamp, 42);
    assert_eq!(entries[0].more, "엠팍");
}

#[test]
fn mp_low_parser_skips_items_without_anchor() {
    let html = {
        let mut html = String::new();
        html.push_str(r#"<div class="lists_today_contxt"><ul>"#);
        html.push_str(r#"<li class="items"><a href="/l/1">Low One</a></li>"#);
        html.push_str(r#"<li class="items">bare text</li>"#);
        html.push_str(r#"<li class="items"><a href="/l/2">Low Two</a></li>"#);
        html.push_str(r#"</ul></div>"#);
        html
    };
    let entries = parse_mp_part_low(&html, 9);
    assert_eq!(entries.len(), 2);
    assert_eq!(entries[0].title, "Low One");
    assert_eq!(entries[0].link, "/l/1");
    assert_eq!(entries[0].datetime, "");
    assert_eq!(entries[1].title, "Low Two");
    assert_eq!(entries[1].more, "엠팍");
}

#[test]
fn source_kinds_route_by_host_tag() {
    assert_eq!(source_kind("dc"), SourceKind::Dc);
    assert_eq!(source_kind("fm"), SourceKind::Fm);
    assert_eq!(source_kind("mp"), SourceKind::Mp);
    assert_eq!(source_kind("mp_low"), SourceKind::MpLow);
    assert_eq!(source_kind("other"), SourceKind::Unknown);
    assert!(source_kind("mp").wants_bot());
    assert!(source_kind("mp_low").wants_bot());
    assert!(!source_kind("dc").wants_bot());
    assert!(!source_kind("fm").wants_bot());
}

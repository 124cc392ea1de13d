//! The per-source parsers. Each turns a fetched listing page into entry
//! records: the extraction of raw fields from markup is the trusted boundary
//! (see `extract`), while the field processing — title cleaning, link
//! building, the posting-age window and the nickname exclusion — is verified
//! here against the extraction's named results.

use vstd::prelude::*;
use vstd::string::StringExecFns;
use crate::models::{List, ListV, list_views, Nick, nick_views};
use crate::text::{after_last, after_last_str, clean_title, keeps_char, str_eq};
use crate::extract::{
    dc_list_url_of, dc_list_url, dc_rows_of, dc_rows, fm_rows_of, fm_rows, mp_rows_of, mp_rows,
    mp_low_rows_of, mp_low_rows, host_of, url_host, post_time_of, post_time,
};
use crate::stale::EXPIRE_SECS;

verus! {

/// The host that absolute links of a listing page are built against: the
/// host of the page's own `list_url` metadata when present and non-empty,
/// otherwise the host of the configured source URL, otherwise empty.
pub open spec fn dc_host(h: Seq<char>, site_url: Seq<char>) -> Seq<char> {
    let site_host = match host_of(site_url) {
        Some(x) => x,
        None => Seq::<char>::empty(),
    };
    match dc_list_url_of(h) {
        Some(v) => if v.len() > 0 {
            match host_of(v) {
                Some(x) => x,
                None => site_host,
            }
        } else {
            site_host
        },
        None => site_host,
    }
}

/// A cleaned post title: what follows the last `</em>` marker, with newlines
/// and tabs removed.
pub open spec fn dc_title(raw: Seq<char>) -> Seq<char> {
    after_last(raw, "</em>"@).filter(|c: char| keeps_char(c))
}

/// An absolute post link: `https://`, the resolved host, then the row's
/// `href`.
pub open spec fn dc_link(host: Seq<char>, href: Seq<char>) -> Seq<char> {
    "https://"@ + host + href
}

/// The entry built from one complete listing row.
pub open spec fn dc_entry(
    tcell: (Seq<char>, Seq<char>),
    dcell: (Seq<char>, Seq<char>),
    host: Seq<char>,
    now: i64,
) -> ListV {
    ListV {
        timestamp: now,
        title: dc_title(tcell.0),
        datetime: dcell.1,
        link: dc_link(host, tcell.1),
        images: Seq::<char>::empty(),
        more: "디시"@,
        new: true,
    }
}

/// What one listing row contributes to the entry list: nothing when a cell
/// is missing, the date does not parse, the post is older than the expiry
/// window, or the writer's nickname is excluded.
pub open spec fn dc_row_entry(
    row: (Option<(Seq<char>, Seq<char>)>, Option<(Seq<char>, Seq<char>)>, Seq<char>),
    host: Seq<char>,
    nicks: Seq<Seq<char>>,
    now: i64,
) -> Option<ListV> {
    match row.0 {
        Some(tcell) => match row.1 {
            Some(dcell) => match post_time_of(dcell.0) {
                Some(ts) => if (now as int - ts as int) < (EXPIRE_SECS as int) && !nicks.contains(
                    row.2,
                ) {
                    Some(dc_entry(tcell, dcell, host, now))
                } else {
                    None
                },
                None => None,
            },
            None => None,
        },
        None => None,
    }
}

/// What one listing row contributes to the log: its link, when the row is
/// complete but its date fails to parse.
pub open spec fn dc_row_log(
    row: (Option<(Seq<char>, Seq<char>)>, Option<(Seq<char>, Seq<char>)>, Seq<char>),
) -> Option<Seq<char>> {
    match row.0 {
        Some(tcell) => match row.1 {
            Some(dcell) => match post_time_of(dcell.0) {
                Some(ts) => None,
                None => Some(tcell.1),
            },
            None => None,
        },
        None => None,
    }
}

/// The entries of a sequence of listing rows.
pub open spec fn dc_entries_of_rows(
    rows: Seq<(Option<(Seq<char>, Seq<char>)>, Option<(Seq<char>, Seq<char>)>, Seq<char>)>,
    host: Seq<char>,
    nicks: Seq<Seq<char>>,
    now: i64,
) -> Seq<ListV> {
    rows.filter_map(|row| dc_row_entry(row, host, nicks, now))
}

/// The logged links of a sequence of listing rows.
pub open spec fn dc_logs_of_rows(
    rows: Seq<(Option<(Seq<char>, Seq<char>)>, Option<(Seq<char>, Seq<char>)>, Seq<char>)>,
) -> Seq<Seq<char>> {
    rows.filter_map(|row| dc_row_log(row))
}

/// The entry list of a whole listing page.
pub open spec fn dc_entries(
    h: Seq<char>,
    site_url: Seq<char>,
    nicks: Seq<Seq<char>>,
    now: i64,
) -> Seq<ListV> {
    dc_entries_of_rows(dc_rows_of(h), dc_host(h, site_url), nicks, now)
}

/// The logged links of a whole listing page.
pub open spec fn dc_logs(h: Seq<char>) -> Seq<Seq<char>> {
    dc_logs_of_rows(dc_rows_of(h))
}

/// Resolves the link host of a listing page.
fn resolve_dc_host(html: &str, site_url: &str) -> (r: String)
    ensures
        r@ == dc_host(html@, site_url@),
{
    let site_host = match url_host(site_url) {
        Some(x) => x,
        None => String::new(),
    };
    assert(site_host@ == match host_of(site_url@) {
        Some(x) => x,
        None => Seq::<char>::empty(),
    });
    match dc_list_url(html) {
        Some(v) => if !v.as_str().is_empty() {
            match url_host(v.as_str()) {
                Some(x) => x,
                None => site_host,
            }
        } else {
            site_host
        },
        None => site_host,
    }
}

/// Whether `name` is on the nickname exclusion list.
fn nick_listed(nicks: &Vec<Nick>, name: &str) -> (r: bool)
    ensures
        r == nick_views(nicks@).contains(name@),
{
    let mut i: usize = 0;
    while i < nicks.len()
        invariant
            i <= nicks@.len(),
            forall|k: int| 0 <= k < i ==> nick_views(nicks@)[k] != name@,
        decreases nicks@.len() - i,
    {
        if str_eq(nicks[i].nick.as_str(), name) {
            assert(nick_views(nicks@)[i as int] == name@);
            return true;
        }
        i = i + 1;
    }
    proof {
        if nick_views(nicks@).contains(name@) {
            let k = choose|k: int| 0 <= k < nicks@.len() && nick_views(nicks@)[k] == name@;
            assert(false);
        }
    }
    false
}

/// Parses a `dc` listing page: every complete row whose
/// date parses, is younger than the expiry window and whose writer is not
/// excluded becomes an entry; complete rows with unparseable dates have
/// their raw link logged.
pub fn parse_dc(html: &str, site_url: &str, nick_list: &Vec<Nick>, now: i64) -> (r: (
    Vec<List>,
    Vec<String>,
))
    ensures
        list_views(r.0@) == dc_entries(html@, site_url@, nick_views(nick_list@), now),
        r.1.deep_view() == dc_logs(html@),
{
    let host = resolve_dc_host(html, site_url);
    let rows = dc_rows(html);
    let ghost tv = rows.deep_view();
    let ghost nv = nick_views(nick_list@);
    let mut out: Vec<List> = Vec::new();
    let mut logs: Vec<String> = Vec::new();
    let mut i: usize = 0;
    proof {
        assert(tv.subrange(0, 0) =~= Seq::<
            (Option<(Seq<char>, Seq<char>)>, Option<(Seq<char>, Seq<char>)>, Seq<char>),
        >::empty());
        assert(list_views(out@) =~= dc_entries_of_rows(tv.subrange(0, 0), host@, nv, now));
        assert(logs.deep_view() =~= dc_logs_of_rows(tv.subrange(0, 0)));
    }
    while i < rows.len()
        invariant
            i <= rows@.len(),
            tv == rows.deep_view(),
            nv == nick_views(nick_list@),
            host@ == dc_host(html@, site_url@),
            list_views(out@) == dc_entries_of_rows(tv.subrange(0, i as int), host@, nv, now),
            logs.deep_view() == dc_logs_of_rows(tv.subrange(0, i as int)),
        decreases rows@.len() - i,
    {
        let ghost pre = tv.subrange(0, i as int);
        let ghost pre1 = tv.subrange(0, i + 1);
        proof {
            assert(pre1.drop_last() =~= pre);
            assert(pre1.last() == tv[i as int]);
        }
        let row = &rows[i];
        let ghost rv = tv[i as int];
        proof {
            assert(rv == rows@[i as int].deep_view());
        }
        let ghost before_out = list_views(out@);
        let ghost before_logs = logs.deep_view();
        match (&row.0, &row.1) {
            (Some(tcell), Some(dcell)) => {
                proof {
                    assert(rv.0 == Some((tcell.0@, tcell.1@)));
                    assert(rv.1 == Some((dcell.0@, dcell.1@)));
                    assert(rv.2 == row.2@);
                }
                match post_time(dcell.0.as_str()) {
                    Some(ts) => {
                        let diff: i128 = now as i128 - ts as i128;
                        let excluded = nick_listed(nick_list, row.2.as_str());
                        if diff < EXPIRE_SECS as i128 && !excluded {
                            let cleaned = {
                                let tail = after_last_str(tcell.0.as_str(), "</em>");
                                clean_title(tail.as_str())
                            };
                            let mut link = String::from_str("https://");
                            link.append(host.as_str());
                            link.append(tcell.1.as_str());
                            assert(link@ =~= dc_link(host@, tcell.1@));
                            let e = List {
                                timestamp: now,
                                title: cleaned,
                                datetime: dcell.1.clone(),
                                link: link,
                                images: String::new(),
                                more: String::from_str("디시"),
                                new: true,
                            };
                            proof {
                                assert(e@ == dc_entry(
                                    (tcell.0@, tcell.1@),
                                    (dcell.0@, dcell.1@),
                                    host@,
                                    now,
                                ));
                            }
                            out.push(e);
                            proof {
                                assert(list_views(out@) =~= before_out.push(
                                    out@[out@.len() - 1]@,
                                ));
                                assert(list_views(out@) =~= dc_entries_of_rows(
                                    pre1,
                                    host@,
                                    nv,
                                    now,
                                ));
                            }
                        } else {
                            proof {
                                assert(dc_row_entry(rv, host@, nv, now) is None);
                                assert(list_views(out@) =~= dc_entries_of_rows(
                                    pre1,
                                    host@,
                                    nv,
                                    now,
                                ));
                            }
                        }
                        proof {
                            assert(dc_row_log(rv) is None);
                            assert(logs.deep_view() =~= dc_logs_of_rows(pre1));
                        }
                    },
                    None => {
                        let c = tcell.1.clone();
                        logs.push(c);
                        proof {
                            assert(dc_row_entry(rv, host@, nv, now) is None);
                            assert(list_views(out@) =~= dc_entries_of_rows(pre1, host@, nv, now));
                            assert(logs.deep_view() =~= before_logs.push(
                                logs@[logs@.len() - 1]@,
                            ));
                            assert(logs.deep_view() =~= dc_logs_of_rows(pre1));
                        }
                    },
                }
            },
            _ => {
                proof {
                    assert(rv.0 is None || rv.1 is None);
                    assert(dc_row_entry(rv, host@, nv, now) is None);
                    assert(dc_row_log(rv) is None);
                    assert(list_views(out@) =~= dc_entries_of_rows(pre1, host@, nv, now));
                    assert(logs.deep_view() =~= dc_logs_of_rows(pre1));
                }
            },
        }
        i = i + 1;
    }
    proof {
        assert(tv.subrange(0, rows@.len() as int) =~= tv);
    }
    (out, logs)
}

/// The entry built from one anchor of an `fm` listing page.
pub open spec fn fm_entry(row: (Seq<char>, Seq<char>), now: i64) -> ListV {
    ListV {
        timestamp: now,
        title: row.0,
        datetime: Seq::<char>::empty(),
        link: row.1,
        images: Seq::<char>::empty(),
        more: "펨코"@,
        new: true,
    }
}

/// The entry list of an `fm` listing page.
pub open spec fn fm_entries(h: Seq<char>, now: i64) -> Seq<ListV> {
    fm_rows_of(h).map_values(|row: (Seq<char>, Seq<char>)| fm_entry(row, now))
}

/// Parses an `fm` listing page: one entry per anchor,
/// all stamped with the current cycle time.
pub fn parse_fm(html: &str, now: i64) -> (r: Vec<List>)
    ensures
        list_views(r@) == fm_entries(html@, now),
{
    let rows = fm_rows(html);
    let ghost tv = rows.deep_view();
    let mut out: Vec<List> = Vec::new();
    let mut i: usize = 0;
    while i < rows.len()
        invariant
            i <= rows@.len(),
            tv == rows.deep_view(),
            out@.len() == i,
            forall|k: int| 0 <= k < i ==> list_views(out@)[k] == fm_entry(tv[k], now),
        decreases rows@.len() - i,
    {
        let row = &rows[i];
        let e = List {
            timestamp: now,
            title: row.0.clone(),
            datetime: String::new(),
            link: row.1.clone(),
            images: String::new(),
            more: String::from_str("펨코"),
            new: true,
        };
        proof {
            assert(tv[i as int] == (row.0@, row.1@));
            assert(e@ == fm_entry(tv[i as int], now));
        }
        let ghost before = list_views(out@);
        out.push(e);
        proof {
            assert(list_views(out@) =~= before.push(out@[out@.len() - 1]@));
        }
        i = i + 1;
    }
    assert(list_views(out@) =~= fm_entries(html@, now));
    out
}

/// The entry built from one complete table row of an `mp` listing page.
pub open spec fn mp_entry(anchor: (Seq<char>, Seq<char>), date: Seq<char>, now: i64) -> ListV {
    ListV {
        timestamp: now,
        title: anchor.0,
        datetime: date,
        link: anchor.1,
        images: Seq::<char>::empty(),
        more: "엠팍"@,
        new: true,
    }
}

/// What one table row contributes: nothing when its anchor or date cell is
/// missing.
pub open spec fn mp_row_entry(
    row: (Option<(Seq<char>, Seq<char>)>, Option<Seq<char>>),
    now: i64,
) -> Option<ListV> {
    match row.0 {
        Some(anchor) => match row.1 {
            Some(date) => Some(mp_entry(anchor, date, now)),
            None => None,
        },
        None => None,
    }
}

/// The entry list of an `mp` listing page.
pub open spec fn mp_entries(h: Seq<char>, now: i64) -> Seq<ListV> {
    mp_rows_of(h).filter_map(
        |row: (Option<(Seq<char>, Seq<char>)>, Option<Seq<char>>)| mp_row_entry(row, now),
    )
}

/// Parses an `mp` listing page: one entry per table row
/// that has both an anchor and a date cell.
pub fn parse_mp(html: &str, now: i64) -> (r: Vec<List>)
    ensures
        list_views(r@) == mp_entries(html@, now),
{
    let rows = mp_rows(html);
    let ghost tv = rows.deep_view();
    let mut out: Vec<List> = Vec::new();
    let mut i: usize = 0;
    proof {
        assert(tv.subrange(0, 0) =~= Seq::<
            (Option<(Seq<char>, Seq<char>)>, Option<Seq<char>>),
        >::empty());
        assert(list_views(out@) =~= tv.subrange(0, 0).filter_map(
            |row: (Option<(Seq<char>, Seq<char>)>, Option<Seq<char>>)| mp_row_entry(row, now),
        ));
    }
    while i < rows.len()
        invariant
            i <= rows@.len(),
            tv == rows.deep_view(),
            list_views(out@) == tv.subrange(0, i as int).filter_map(
                |row: (Option<(Seq<char>, Seq<char>)>, Option<Seq<char>>)| mp_row_entry(row, now),
            ),
        decreases rows@.len() - i,
    {
        let ghost pre = tv.subrange(0, i as int);
        let ghost pre1 = tv.subrange(0, i + 1);
        proof {
            assert(pre1.drop_last() =~= pre);
            assert(pre1.last() == tv[i as int]);
        }
        let row = &rows[i];
        let ghost rv = tv[i as int];
        let ghost before = list_views(out@);
        match (&row.0, &row.1) {
            (Some(anchor), Some(date)) => {
                proof {
                    assert(rv.0 == Some((anchor.0@, anchor.1@)));
                    assert(rv.1 == Some(date@));
                }
                let e = List {
                    timestamp: now,
                    title: anchor.0.clone(),
                    datetime: date.clone(),
                    link: anchor.1.clone(),
                    images: String::new(),
                    more: String::from_str("엠팍"),
                    new: true,
                };
                proof {
                    assert(e@ == mp_entry((anchor.0@, anchor.1@), date@, now));
                }
                out.push(e);
                proof {
                    assert(list_views(out@) =~= before.push(out@[out@.len() - 1]@));
                    assert(list_views(out@) =~= pre1.filter_map(
                        |row: (Option<(Seq<char>, Seq<char>)>, Option<Seq<char>>)| mp_row_entry(
                            row,
                            now,
                        ),
                    ));
                }
            },
            _ => {
                proof {
                    assert(rv.0 is None || rv.1 is None);
                    assert(mp_row_entry(rv, now) is None);
                    assert(list_views(out@) =~= pre1.filter_map(
                        |row: (Option<(Seq<char>, Seq<char>)>, Option<Seq<char>>)| mp_row_entry(
                            row,
                            now,
                        ),
                    ));
                }
            },
        }
        i = i + 1;
    }
    proof {
        assert(tv.subrange(0, rows@.len() as int) =~= tv);
    }
    out
}

/// The entry built from one list item of the low-band `mp` listing page.
pub open spec fn mp_low_entry(anchor: (Seq<char>, Seq<char>), now: i64) -> ListV {
    ListV {
        timestamp: now,
        title: anchor.0,
        datetime: Seq::<char>::empty(),
        link: anchor.1,
        images: Seq::<char>::empty(),
        more: "엠팍"@,
        new: true,
    }
}

/// What one list item contributes: nothing when it has no anchor.
pub open spec fn mp_low_row_entry(
    row: Option<(Seq<char>, Seq<char>)>,
    now: i64,
) -> Option<ListV> {
    match row {
        Some(anchor) => Some(mp_low_entry(anchor, now)),
        None => None,
    }
}

/// The entry list of a low-band `mp` listing page.
pub open spec fn mp_low_entries(h: Seq<char>, now: i64) -> Seq<ListV> {
    mp_low_rows_of(h).filter_map(
        |row: Option<(Seq<char>, Seq<char>)>| mp_low_row_entry(row, now),
    )
}

/// Parses a low-band `mp` listing page: one entry per
/// list item that has an anchor.
pub fn parse_mp_part_low(html: &str, now: i64) -> (r: Vec<List>)
    ensures
        list_views(r@) == mp_low_entries(html@, now),
{
    let rows = mp_low_rows(html);
    let ghost tv = rows.deep_view();
    let mut out: Vec<List> = Vec::new();
    let mut i: usize = 0;
    proof {
        assert(tv.subrange(0, 0) =~= Seq::<Option<(Seq<char>, Seq<char>)>>::empty());
        assert(list_views(out@) =~= tv.subrange(0, 0).filter_map(
            |row: Option<(Seq<char>, Seq<char>)>| mp_low_row_entry(row, now),
        ));
    }
    while i < rows.len()
        invariant
            i <= rows@.len(),
            tv == rows.deep_view(),
            list_views(out@) == tv.subrange(0, i as int).filter_map(
                |row: Option<(Seq<char>, Seq<char>)>| mp_low_row_entry(row, now),
            ),
        decreases rows@.len() - i,
    {
        let ghost pre = tv.subrange(0, i as int);
        let ghost pre1 = tv.subrange(0, i + 1);
        proof {
            assert(pre1.drop_last() =~= pre);
            assert(pre1.last() == tv[i as int]);
        }
        let row = &rows[i];
        let ghost rv = tv[i as int];
        let ghost before = list_views(out@);
        match row {
            Some(anchor) => {
                proof {
                    assert(rv == Some((anchor.0@, anchor.1@)));
                }
                let e = List {
                    timestamp: now,
                    title: anchor.0.clone(),
                    datetime: String::new(),
                    link: anchor.1.clone(),
                    images: String::new(),
                    more: String::from_str("엠팍"),
                    new: true,
                };
                proof {
                    assert(e@ == mp_low_entry((anchor.0@, anchor.1@), now));
                }
                out.push(e);
                proof {
                    assert(list_views(out@) =~= before.push(out@[out@.len() - 1]@));
                    assert(list_views(out@) =~= pre1.filter_map(
                        |row: Option<(Seq<char>, Seq<char>)>| mp_low_row_entry(row, now),
                    ));
                }
            },
            None => {
                proof {
                    assert(rv is None);
                    assert(mp_low_row_entry(rv, now) is None);
                    assert(list_views(out@) =~= pre1.filter_map(
                        |row: Option<(Seq<char>, Seq<char>)>| mp_low_row_entry(row, now),
                    ));
                }
            },
        }
        i = i + 1;
    }
    proof {
        assert(tv.subrange(0, rows@.len() as int) =~= tv);
    }
    out
}

} // verus!

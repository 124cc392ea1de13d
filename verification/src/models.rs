//! Data model of the watcher: a discovered post (`List`), the per-cycle
//! configuration records (`Site`, `Save`, `Down`, `Nick`) and the ephemeral
//! image reference (`Images`) produced by the download cascade.
//!
//! Each executable type has a ghost view holding the same fields over
//! `Seq<char>`, so that contracts can speak of entry lists mathematically.

use vstd::prelude::*;

verus! {

/// One discovered post. `link` is the identity key: stored state never holds
/// two entries with the same `link`. `timestamp` is the time of the polling
/// cycle in which the entry was last seen on a listing page.
pub struct List {
    pub timestamp: i64,
    pub title: String,
    pub datetime: String,
    pub link: String,
    pub images: String,
    pub more: String,
    pub new: bool,
}

/// Ghost image of a `List` entry.
pub struct ListV {
    pub timestamp: i64,
    pub title: Seq<char>,
    pub datetime: Seq<char>,
    pub link: Seq<char>,
    pub images: Seq<char>,
    pub more: Seq<char>,
    pub new: bool,
}

impl View for List {
    type V = ListV;

    open spec fn view(&self) -> ListV {
        ListV {
            timestamp: self.timestamp,
            title: self.title@,
            datetime: self.datetime@,
            link: self.link@,
            images: self.images@,
            more: self.more@,
            new: self.new,
        }
    }
}

impl Clone for List {
    fn clone(&self) -> (res: Self)
        ensures
            res@ == self@,
    {
        List {
            timestamp: self.timestamp,
            title: self.title.clone(),
            datetime: self.datetime.clone(),
            link: self.link.clone(),
            images: self.images.clone(),
            more: self.more.clone(),
            new: self.new,
        }
    }
}

/// The ghost images of a whole entry list.
pub open spec fn list_views(s: Seq<List>) -> Seq<ListV> {
    s.map_values(|e: List| e@)
}

/// One configured listing page: which source kind it belongs to and where to
/// fetch it.
pub struct Site {
    pub host: String,
    pub url: String,
}

/// Where a source's merged state is persisted.
pub struct Save {
    pub host: String,
    pub json_path: String,
}

/// One download rule: an entry of the named source whose title contains
/// `title` as a substring is downloaded under `path`.
pub struct Down {
    pub host: String,
    pub title: String,
    pub path: String,
}

/// Ghost image of a download rule.
pub struct DownV {
    pub host: Seq<char>,
    pub title: Seq<char>,
    pub path: Seq<char>,
}

impl View for Down {
    type V = DownV;

    open spec fn view(&self) -> DownV {
        DownV { host: self.host@, title: self.title@, path: self.path@ }
    }
}

/// The ghost images of a whole rule list.
pub open spec fn down_views(s: Seq<Down>) -> Seq<DownV> {
    s.map_values(|e: Down| e@)
}

/// One image to materialize: fetched from `link` with `refferer` as the
/// `Referer` header, written as `path`/`subpath`/`file_name`.
pub struct Images {
    pub link: String,
    pub refferer: String,
    pub file_name: String,
    pub path: String,
    pub subpath: String,
}

/// Ghost image of an `Images` record.
pub struct ImagesV {
    pub link: Seq<char>,
    pub refferer: Seq<char>,
    pub file_name: Seq<char>,
    pub path: Seq<char>,
    pub subpath: Seq<char>,
}

impl View for Images {
    type V = ImagesV;

    open spec fn view(&self) -> ImagesV {
        ImagesV {
            link: self.link@,
            refferer: self.refferer@,
            file_name: self.file_name@,
            path: self.path@,
            subpath: self.subpath@,
        }
    }
}

/// A nickname whose posts are dropped during parsing.
pub struct Nick {
    pub nick: String,
}

/// The nickname exclusion list as ghost character sequences.
pub open spec fn nick_views(s: Seq<Nick>) -> Seq<Seq<char>> {
    s.map_values(|e: Nick| e.nick@)
}

} // verus!

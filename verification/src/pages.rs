//! What `glimmerwood://` means.
//!
//! Glimmerwood's own interface (the toolbar, the tab column, Home and
//! Settings) is served from files carried inside the app rather than off a
//! disk or a network. Which address means which file, and what each file is,
//! is the same wherever it runs; how those files are carried and handed to a
//! webview is the platform's business.

use vstd::prelude::*;

use crate::text::{
    before_any, before_any_in, chars_of, has, push_str, rsplit_once, rsplit_once_in, same, slice_of,
    split, split_char, starts, string_of, strip_prefix, views,
};

verus! {

pub const SCHEME: &'static str = "glimmerwood://";

pub open spec fn scheme() -> Seq<char> {
    "glimmerwood://"@
}

/// What may follow a page's name in one of its addresses.
pub open spec fn page_end(rest: Seq<char>) -> bool {
    rest.len() == 0 || "/?#"@.contains(rest[0])
}

/// `uri` is `glimmerwood://PAGE`, alone or followed by a path, query or
/// fragment.
pub open spec fn is_page_spec(uri: Seq<char>, page: Seq<char>) -> bool {
    match strip_prefix(uri, scheme()) {
        Some(rest) => match strip_prefix(rest, page) {
            Some(tail) => page_end(tail),
            None => false,
        },
        None => false,
    }
}

pub open spec fn is_home_spec(uri: Seq<char>) -> bool {
    is_page_spec(uri, "home"@)
}

pub open spec fn is_settings_spec(uri: Seq<char>) -> bool {
    is_page_spec(uri, "settings"@)
}

pub open spec fn is_local_page_spec(uri: Seq<char>) -> bool {
    is_home_spec(uri) || is_settings_spec(uri)
}

/// A path inside the bundle: pieces between slashes, none empty, none `.`
/// or `..`.
pub open spec fn clean_path(path: Seq<char>) -> bool {
    forall|i: int|
        0 <= i < split(path, '/').len() ==> {
            let piece = #[trigger] split(path, '/')[i];
            piece.len() > 0 && piece != "."@ && piece != ".."@
        }
}

/// Where `home` and `settings` lead, and every other path as it is.
pub open spec fn page_file(path: Seq<char>) -> Seq<char> {
    if path == "home"@ || path == "home/"@ {
        "home/index.html"@
    } else if path == "settings"@ || path == "settings/"@ {
        "settings/index.html"@
    } else {
        path
    }
}

pub open spec fn path_of_spec(uri: Seq<char>) -> Option<Seq<char>> {
    match strip_prefix(uri, scheme()) {
        Some(rest) => {
            let path = page_file(before_any(rest, "?#"@));
            if clean_path(path) {
                Some(path)
            } else {
                None
            }
        },
        None => None,
    }
}

/// `v` without `p` in front, if it starts with it.
pub fn strip_prefix_of(v: &[char], p: &[char]) -> (r: Option<Vec<char>>)
    ensures
        match r {
            Some(w) => strip_prefix(v@, p@) == Some(w@),
            None => strip_prefix(v@, p@) is None,
        },
{
    if starts(v, p) {
        let w = slice_of(v, p.len(), v.len());
        assert(w@ == v@.skip(p@.len() as int));
        Some(w)
    } else {
        None
    }
}

fn is_page(uri: &str, page: &str) -> (r: bool)
    ensures
        r == is_page_spec(uri@, page@),
{
    let v = chars_of(uri);
    let scheme = chars_of(SCHEME);
    match strip_prefix_of(&v, &scheme) {
        Some(rest) => {
            let page = chars_of(page);
            match strip_prefix_of(&rest, &page) {
                Some(tail) => {
                    if tail.len() == 0 {
                        true
                    } else {
                        let ends = chars_of("/?#");
                        has(&ends, tail[0])
                    }
                },
                None => false,
            }
        },
        None => false,
    }
}

/// Home's own files, which any tab may load.
pub fn is_home(uri: &str) -> (r: bool)
    ensures
        r == is_home_spec(uri@),
{
    is_page(uri, "home")
}

/// The Settings page's own files, which any tab may load.
pub fn is_settings(uri: &str) -> (r: bool)
    ensures
        r == is_settings_spec(uri@),
{
    is_page(uri, "settings")
}

pub fn is_local_page(uri: &str) -> (r: bool)
    ensures
        r == is_local_page_spec(uri@),
{
    is_home(uri) || is_settings(uri)
}

fn clean(path: &[char]) -> (r: bool)
    ensures
        r == clean_path(path@),
{
    let pieces = split_char(path, '/');
    let dot = chars_of(".");
    let dots = chars_of("..");
    let mut i: usize = 0;
    while i < pieces.len()
        invariant
            0 <= i <= pieces@.len(),
            views(pieces@) == split(path@, '/'),
            dot@ == "."@,
            dots@ == ".."@,
            forall|j: int|
                0 <= j < i ==> {
                    let piece = #[trigger] split(path@, '/')[j];
                    piece.len() > 0 && piece != "."@ && piece != ".."@
                },
        decreases pieces.len() - i,
    {
        let piece = &pieces[i];
        assert(piece@ == split(path@, '/')[i as int]);
        if piece.len() == 0 || same(piece, &dot) || same(piece, &dots) {
            return false;
        }
        i += 1;
    }
    true
}

/// `glimmerwood://chrome/index.html` → `chrome/index.html`, and `None` for
/// anything trying to climb out of the bundle.
pub fn path_of(uri: &str) -> (r: Option<String>)
    ensures
        match r {
            Some(p) => path_of_spec(uri@) == Some(p@),
            None => path_of_spec(uri@) is None,
        },
{
    let v = chars_of(uri);
    let scheme = chars_of(SCHEME);
    let rest = match strip_prefix_of(&v, &scheme) {
        Some(rest) => rest,
        None => return None,
    };
    let stops = chars_of("?#");
    let path = before_any_in(&rest, &stops);
    let home = chars_of("home");
    let home_slash = chars_of("home/");
    let settings = chars_of("settings");
    let settings_slash = chars_of("settings/");
    let path = if same(&path, &home) || same(&path, &home_slash) {
        chars_of("home/index.html")
    } else if same(&path, &settings) || same(&path, &settings_slash) {
        chars_of("settings/index.html")
    } else {
        path
    };
    if clean(&path) {
        Some(string_of(&path))
    } else {
        None
    }
}

/// One of Glimmerwood's own pages, which any tab may open.
#[derive(Clone, Copy, Debug, PartialEq, Eq, Structural)]
pub enum Local {
    Home,
    Settings,
}

pub open spec fn local_of_spec(uri: Seq<char>) -> Option<Local> {
    if is_home_spec(uri) {
        Some(Local::Home)
    } else if is_settings_spec(uri) {
        Some(Local::Settings)
    } else {
        None
    }
}

pub open spec fn local_name(page: Local) -> Seq<char> {
    match page {
        Local::Home => "home"@,
        Local::Settings => "settings"@,
    }
}

pub open spec fn local_global(page: Local) -> Seq<char> {
    match page {
        Local::Home => "wispHome"@,
        Local::Settings => "wispSettings"@,
    }
}

/// The script that hands `page` what it shows.
pub open spec fn hand_over_spec(page: Local, json: Seq<char>) -> Seq<char> {
    let (name, global) = (local_name(page), local_global(page));
    "if (location.href.startsWith('glimmerwood://"@ + name + "/')) { window."@ + global
        + "Data = "@ + json + "; window."@ + global + "?.show(window."@ + global + "Data); }"@
}

impl Local {
    /// Which page an address is, if it is one of ours.
    pub fn of(uri: &str) -> (r: Option<Local>)
        ensures
            r == local_of_spec(uri@),
    {
        if is_home(uri) {
            Some(Local::Home)
        } else if is_settings(uri) {
            Some(Local::Settings)
        } else {
            None
        }
    }

    fn name(self) -> (r: &'static str)
        ensures
            r@ == local_name(self),
    {
        match self {
            Local::Home => "home",
            Local::Settings => "settings",
        }
    }

    fn global(self) -> (r: &'static str)
        ensures
            r@ == local_global(self),
    {
        match self {
            Local::Home => "wispHome",
            Local::Settings => "wispSettings",
        }
    }

    /// The script that hands the page what it shows. It checks where it has
    /// landed first, because a page can go somewhere else between being asked
    /// for and answering.
    pub fn hand_over(self, json: &str) -> (r: String)
        ensures
            r@ == hand_over_spec(self, json@),
    {
        let (page, global) = (self.name(), self.global());
        let mut out: Vec<char> = Vec::new();
        push_str(&mut out, "if (location.href.startsWith('glimmerwood://");
        push_str(&mut out, page);
        push_str(&mut out, "/')) { window.");
        push_str(&mut out, global);
        push_str(&mut out, "Data = ");
        push_str(&mut out, json);
        push_str(&mut out, "; window.");
        push_str(&mut out, global);
        push_str(&mut out, "?.show(window.");
        push_str(&mut out, global);
        push_str(&mut out, "Data); }");
        string_of(&out)
    }
}

/// The content type each kind of bundled file is served with.
pub open spec fn mime_type_spec(path: Seq<char>) -> Seq<char> {
    match rsplit_once(path, "."@) {
        Some((_, ext)) => if ext == "html"@ {
            "text/html"@
        } else if ext == "js"@ {
            "text/javascript"@
        } else if ext == "css"@ {
            "text/css"@
        } else if ext == "svg"@ {
            "image/svg+xml"@
        } else {
            "application/octet-stream"@
        },
        None => "application/octet-stream"@,
    }
}

pub fn mime_type(path: &str) -> (r: &'static str)
    ensures
        r@ == mime_type_spec(path@),
{
    let v = chars_of(path);
    let dot = chars_of(".");
    match rsplit_once_in(&v, &dot) {
        Some((_, ext)) => {
            if same(&ext, &chars_of("html")) {
                "text/html"
            } else if same(&ext, &chars_of("js")) {
                "text/javascript"
            } else if same(&ext, &chars_of("css")) {
                "text/css"
            } else if same(&ext, &chars_of("svg")) {
                "image/svg+xml"
            } else {
                "application/octet-stream"
            }
        },
        None => "application/octet-stream",
    }
}

} // verus!

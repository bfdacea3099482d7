//! Messages between the chrome webview and the core: the plain values each
//! side reads. How they are spelled on the wire is the shell's business.

use vstd::prelude::*;

use crate::text::{lower_char, is_ascii_upper, to_lower};

verus! {

/// How private the connection to the page in the tab is.
#[derive(Clone, Copy, Debug, PartialEq, Eq, Structural)]
pub enum Security {
    /// Loaded over HTTPS.
    Secure,
    /// Loaded over plain HTTP, readable by anyone on the network path.
    NotSecure,
    /// Nothing from the network: a blank tab or a local page.
    Local,
}

/// The two chrome pages: the toolbar across the top (with the wisp's nook)
/// and the column of tabs down the left.
#[derive(Clone, Copy, Debug, PartialEq, Eq, Structural)]
pub enum ChromeView {
    Sidebar,
    Toolbar,
}

/// Whether a tab is making sound, for its mark in the tab column.
#[derive(Clone, Copy, Debug, PartialEq, Eq, Structural)]
pub enum TabSound {
    Silent,
    Playing,
    Muted,
}

#[derive(Clone, Copy, Debug, PartialEq, Eq, Structural)]
pub enum WispPhase {
    Rested,
    Engaged,
    Clouded,
    Drained,
}

/// What the dose is doing, which colours how the wisp moves.
#[derive(Clone, Copy, Debug, PartialEq, Eq, Structural)]
pub enum WispMode {
    Away,
    Draining,
    Resting,
    Nourishing,
    Holding,
}

#[derive(Clone, Copy, Debug, PartialEq, Eq, Structural)]
pub enum WispTrend {
    Rising,
    Falling,
    Steady,
}

#[derive(Clone, Copy, Debug, PartialEq, Eq, Structural)]
pub enum DayPart {
    Morning,
    Day,
    Evening,
    Night,
}

#[derive(Clone, Copy, Debug, PartialEq, Eq, Structural)]
pub enum PlantKind {
    Moss,
    Fern,
    Flower,
}

/// Kinds of time in the wisp's history: on nourishing sites, on ordinary or
/// unlisted ones, and on draining ones. Time away isn't counted.
#[derive(Clone, Copy, Debug, PartialEq, Eq, Structural)]
pub enum TimeKind {
    Restoring,
    Everyday,
    Wearing,
}

/// What a good-news feed brings.
#[derive(Clone, Copy, Debug, PartialEq, Eq, Structural)]
pub enum NewsKind {
    Working,
    Light,
    Awe,
}

/// How a site leaves the user, as Settings and the wisp's question say it.
#[derive(Clone, Copy, Debug, PartialEq, Eq, Structural)]
pub enum Rating {
    DrainsALot,
    DrainsALittle,
    Neither,
    RestoresALittle,
    RestoresALot,
    News,
    Private,
    Unrated,
    Care,
}

/// A site as Settings shows it: how it counts now and which entry decides
/// that, what the user's own file says of it, and what the seed list says.
#[derive(Clone, Debug, PartialEq, Eq)]
pub struct SiteRating {
    pub site: String,
    pub rating: Rating,
    /// The entry the site falls under, or empty for none.
    pub matched: String,
    pub yours: Option<Rating>,
    pub seed: Option<Rating>,
}

/// Where a download has got to.
#[derive(Clone, Copy, Debug, PartialEq, Eq, Structural)]
pub enum Progress {
    Running,
    Saved,
    Failed,
}

/// A download as Home shows it. `twentieths` is how far it has got, in
/// twentieths, when that is known.
#[derive(Clone, Debug, PartialEq, Eq)]
pub struct Download {
    pub id: u32,
    pub name: String,
    pub path: String,
    pub progress: Progress,
    pub twentieths: Option<u32>,
}

/// What a line of the hover caption is about.
#[derive(Clone, Copy, Debug, PartialEq, Eq, Structural)]
pub enum CaptionKind {
    /// A draining site; the label is its list entry.
    Wearing,
    /// A nourishing site; the label is its list entry.
    Restoring,
    /// Ordinary sites; the label is the entry when describing now, empty
    /// when summing up the last minutes.
    OrdinarySites,
    /// A site on no list, which holds the dose steady; the label is the site.
    Holding,
    /// A tab playing sound that changes nothing; the label is the site.
    Playing,
    /// A private site: nothing about it is named.
    Private,
    /// A care site: nothing about it is named, and the wisp stays close.
    Care,
    Away,
}

/// One line of the hover caption.
#[derive(Clone, Debug, PartialEq, Eq)]
pub struct CaptionLine {
    pub kind: CaptionKind,
    pub label: String,
    /// 1 to 3 by share of the movement; 0 on lines about now.
    pub bars: u32,
    /// About a tab that's playing sound rather than the page on screen.
    pub heard: bool,
}

/// A caption line as plain values.
pub struct CaptionLineView {
    pub kind: CaptionKind,
    pub label: Seq<char>,
    pub bars: u32,
    pub heard: bool,
}

impl View for CaptionLine {
    type V = CaptionLineView;

    open spec fn view(&self) -> CaptionLineView {
        CaptionLineView { kind: self.kind, label: self.label@, bars: self.bars, heard: self.heard }
    }
}

/// A time the night can start or end at, with how it is said.
#[derive(Clone, Debug, PartialEq, Eq)]
pub struct TimeChoice {
    pub label: String,
    pub value: String,
}

/// A good-news feed as Settings lists it, and whether Newsboat's list has it.
#[derive(Clone, Debug, PartialEq, Eq)]
pub struct NewsFeed {
    pub name: String,
    pub site: String,
    pub kind: NewsKind,
    pub added: bool,
}

/// Something Home explains once: the topic's key and the words.
#[derive(Clone, Debug, PartialEq, Eq)]
pub struct HomeExplain {
    pub topic: String,
    pub text: String,
}

/// The wisp's introduction, while Home shows it.
#[derive(Clone, Debug, PartialEq, Eq)]
pub struct HomeAbout {
    pub title: String,
    pub paragraphs: Vec<String>,
    pub done: String,
}

/// A good place Home offers.
#[derive(Clone, Debug, PartialEq, Eq)]
pub struct HomePlace {
    pub name: String,
    pub line: String,
    pub url: String,
    /// One the user already returns to.
    pub yours: bool,
}

/// A bookmark as Home lists it, with the site it is on.
#[derive(Clone, Debug, PartialEq, Eq)]
pub struct HomeBookmark {
    pub id: i64,
    pub title: String,
    pub url: String,
    pub host: String,
}

/// A day that grew the garden, as Home shows it.
#[derive(Clone, Copy, Debug, PartialEq, Eq, Structural)]
pub struct HomePlant {
    pub kind: PlantKind,
    pub fireflies: bool,
}

/// A list entry that moved the wisp this week, as the diary names it.
#[derive(Clone, Debug, PartialEq, Eq)]
pub struct DiarySite {
    pub label: String,
    pub kind: TimeKind,
    /// 1 to 3, compared with the entry with the most time.
    pub bars: u32,
}

/// A tab as the tab column shows it.
#[derive(Clone, Debug, PartialEq, Eq)]
pub struct TabInfo {
    pub id: u32,
    pub title: String,
    /// The site, for the letter shown when it has no icon.
    pub host: String,
    pub loading: bool,
    pub sound: TabSound,
    pub asleep: bool,
}

/// One character of a name in `snake_case`: an underscore before each
/// capital but the first, and every letter in lower case.
pub open spec fn snake_piece(i: int, c: char) -> Seq<char> {
    if is_ascii_upper(c) && i > 0 {
        seq!['_', lower_char(c)]
    } else {
        seq![lower_char(c)]
    }
}

pub open spec fn snake_case_spec(name: Seq<char>) -> Seq<char>
    decreases name.len(),
{
    if name.len() == 0 {
        Seq::empty()
    } else {
        snake_case_spec(name.drop_last()) + snake_piece(name.len() - 1, name.last())
    }
}

/// `NotSecure` → `not_secure`: how a variant is named on the wire.
pub fn snake_case(name: &str) -> (r: String)
    ensures
        r@ == snake_case_spec(name@),
{
    let v = crate::text::chars_of(name);
    let mut out: Vec<char> = Vec::new();
    let mut i: usize = 0;
    while i < v.len()
        invariant
            0 <= i <= v@.len(),
            out@ == snake_case_spec(v@.take(i as int)),
        decreases v.len() - i,
    {
        assert(v@.take(i + 1).drop_last() == v@.take(i as int));
        let c = v[i];
        if 'A' <= c && c <= 'Z' && i > 0 {
            out.push('_');
        }
        out.push(to_lower(c));
        i += 1;
    }
    assert(v@.take(v@.len() as int) == v@);
    crate::text::string_of(&out)
}

} // verus!

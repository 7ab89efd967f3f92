//! Turns a rendered HTML listing page of a torrent-index site into a
//! structured result set: a chronologically ordered list of entries (name,
//! links, sizes, counters, date) plus pagination metadata.
//!
//! The single entry point is [`parse_html`].  Its whole behaviour is pinned
//! by [`spec_parse_html`], a function of the HTML text and the base URL
//! alone: HTML parsing (kuchiki) and URL resolution (url) are deterministic
//! outside capabilities whose results are named by uninterpreted functions,
//! and everything else — selector matching, row extraction, field parsing,
//! ordering — is verified code in this crate.

use vstd::prelude::*;

pub mod accessors;
pub mod args;
pub mod dom;
pub mod errors;
pub mod magnet_uri;
pub mod num;
pub mod schema;
pub mod selector;
pub mod size_parser;
pub mod strutil;
pub mod urls;

use crate::accessors::{
    attr, href, select, select_parent_href, select_text, select_u32, spec_attr, spec_href,
    spec_sel, spec_sel_parent_href, spec_sel_text, spec_sel_u32,
};
use crate::dom::{dom_from_html, dom_of, node_at, spec_node_at, DomNode};
use crate::errors::{ErrM, ParseError};
use crate::magnet_uri::{spec_lookup, spec_magnet_ok, spec_magnet_pairs, MagnetURI};
use crate::num::{parse_u32, spec_parse_u32, spec_parse_u64};
use crate::schema::{
    sel_center_col, sel_center_col_m, sel_comments, sel_comments_m, sel_marker, sel_marker_m,
    sel_name, sel_name_m, sel_page_current, sel_page_current_m, sel_page_links, sel_page_links_m,
    sel_row_magnet, sel_row_magnet_m, sel_row_torrent, sel_row_torrent_m, sel_rows, sel_rows_m,
};
use crate::selector::{select_all, select_first, spec_select, spec_select_first};
use crate::size_parser::spec_size_parse;
use crate::strutil::{skip_spaces, spec_first_token, str_eq, token_end};
use crate::urls::{parse_base_url, url_norm};
use vstd::string::StrSliceExecFns;

verus! {

/// Type of an entry, derived from the row's status marker.
#[derive(Debug, Clone, PartialEq, Eq)]
pub enum EntryKind {
    /// This entry was deleted.
    Deleted,
    /// This entry is hidden.
    Hidden,
    /// This entry is a remake.
    Remake,
    /// This entry is trusted.
    Trusted,
    /// This entry is a normal entry.
    Default,
    /// The status marker is none of the known ones; it is kept verbatim.
    Unknown(String),
}

/// Mathematical model of an [`EntryKind`].
#[verifier::ext_equal]
pub enum KindM {
    Deleted,
    Hidden,
    Remake,
    Trusted,
    Default,
    Unknown(Seq<char>),
}

impl View for EntryKind {
    type V = KindM;

    open spec fn view(&self) -> KindM {
        match self {
            EntryKind::Deleted => KindM::Deleted,
            EntryKind::Hidden => KindM::Hidden,
            EntryKind::Remake => KindM::Remake,
            EntryKind::Trusted => KindM::Trusted,
            EntryKind::Default => KindM::Default,
            EntryKind::Unknown(s) => KindM::Unknown(s@),
        }
    }
}

/// The fixed lookup table from status markers to kinds: anything not in
/// the table becomes `Unknown` with the marker text preserved verbatim.
pub open spec fn spec_kind_of(name: Seq<char>) -> KindM {
    if name == "deleted"@ {
        KindM::Deleted
    } else if name == "warning"@ {
        KindM::Hidden
    } else if name == "danger"@ {
        KindM::Remake
    } else if name == "success"@ {
        KindM::Trusted
    } else if name == "default"@ {
        KindM::Default
    } else {
        KindM::Unknown(name)
    }
}

impl EntryKind {
    /// Maps a row's status marker (its CSS class) to the entry kind.
    pub fn from_class_name(name: &str) -> (r: Self)
        ensures
            r@ == spec_kind_of(name@),
    {
        if str_eq(name, "deleted") {
            Self::Deleted
        } else if str_eq(name, "warning") {
            Self::Hidden
        } else if str_eq(name, "danger") {
            Self::Remake
        } else if str_eq(name, "success") {
            Self::Trusted
        } else if str_eq(name, "default") {
            Self::Default
        } else {
            Self::Unknown(name.to_owned())
        }
    }
}

/// Download links for an entry.
#[derive(Debug, Clone, PartialEq)]
pub struct Links {
    /// Link to download the torrent file, resolved against the base URL.
    pub torrent: String,
    /// Raw magnet URI.
    pub magnet: String,
    /// Parsed magnet URI, when the raw string parses.
    pub parsed_magnet: Option<MagnetURI>,
}

/// Mathematical model of [`Links`].
#[verifier::ext_equal]
pub struct LinksM {
    pub torrent: Seq<char>,
    pub magnet: Seq<char>,
    pub parsed_magnet: Option<Seq<(Seq<char>, Seq<char>)>>,
}

impl View for Links {
    type V = LinksM;

    open spec fn view(&self) -> LinksM {
        LinksM {
            torrent: self.torrent@,
            magnet: self.magnet@,
            parsed_magnet: match self.parsed_magnet {
                Some(m) => Some(m.pairs()),
                None => None,
            },
        }
    }
}

/// Information about the size of an entry.  The two parsed values are
/// derived independently and may disagree; neither is authoritative.
#[derive(Debug, Clone, PartialEq)]
pub struct Sizes {
    /// Raw, human-readable size string.
    pub raw: String,
    /// Size parsed from the magnet URI's exact-length parameter, if any.
    pub parsed_from_magnet: Option<u64>,
    /// Size parsed from the raw string, if it parses.
    pub parsed_from_raw: Option<u64>,
}

/// Mathematical model of [`Sizes`].
#[verifier::ext_equal]
pub struct SizesM {
    pub raw: Seq<char>,
    pub parsed_from_magnet: Option<u64>,
    pub parsed_from_raw: Option<u64>,
}

impl View for Sizes {
    type V = SizesM;

    open spec fn view(&self) -> SizesM {
        SizesM {
            raw: self.raw@,
            parsed_from_magnet: self.parsed_from_magnet,
            parsed_from_raw: self.parsed_from_raw,
        }
    }
}

/// Represents one extracted download entry.
#[derive(Debug, Clone, PartialEq)]
pub struct NyaasiEntry {
    /// URL of this entry's page.
    pub url: String,
    /// Type of this entry.
    pub kind: EntryKind,
    /// Name of the entry.
    pub name: String,
    /// Number of comments on this entry.
    pub comments: u32,
    /// Download links.
    pub links: Links,
    /// Entry size.
    pub sizes: Sizes,
    /// Date added, as the page shows it.
    pub date: String,
    /// Number of seeders.
    pub seeders: u32,
    /// Number of leechers.
    pub leechers: u32,
    /// Number of completed downloads.
    pub downloads: u32,
}

/// Mathematical model of a [`NyaasiEntry`].
#[verifier::ext_equal]
pub struct EntryM {
    pub url: Seq<char>,
    pub kind: KindM,
    pub name: Seq<char>,
    pub comments: u32,
    pub links: LinksM,
    pub sizes: SizesM,
    pub date: Seq<char>,
    pub seeders: u32,
    pub leechers: u32,
    pub downloads: u32,
}

impl View for NyaasiEntry {
    type V = EntryM;

    open spec fn view(&self) -> EntryM {
        EntryM {
            url: self.url@,
            kind: self.kind@,
            name: self.name@,
            comments: self.comments,
            links: self.links@,
            sizes: self.sizes@,
            date: self.date@,
            seeders: self.seeders,
            leechers: self.leechers,
            downloads: self.downloads,
        }
    }
}

impl DeepView for NyaasiEntry {
    type V = EntryM;

    open spec fn deep_view(&self) -> EntryM {
        self.view()
    }
}

/// Data about one page of the query.
#[derive(Debug, Clone, PartialEq)]
pub struct Page {
    /// URL of the page, resolved against the base URL.
    pub url: String,
    /// Number of the page.
    pub number: u32,
}

/// Mathematical model of a [`Page`].
#[verifier::ext_equal]
pub struct PageM {
    pub url: Seq<char>,
    pub number: u32,
}

impl View for Page {
    type V = PageM;

    open spec fn view(&self) -> PageM {
        PageM { url: self.url@, number: self.number }
    }
}

impl DeepView for Page {
    type V = PageM;

    open spec fn deep_view(&self) -> PageM {
        self.view()
    }
}

/// Pagination data from a page.
#[derive(Debug, Clone, PartialEq)]
pub struct Pagination {
    /// Pages around the current one.
    pub pages: Vec<Page>,
    /// The current page.
    pub current: Page,
}

/// Mathematical model of a [`Pagination`].
#[verifier::ext_equal]
pub struct PaginationM {
    pub pages: Seq<PageM>,
    pub current: PageM,
}

impl View for Pagination {
    type V = PaginationM;

    open spec fn view(&self) -> PaginationM {
        PaginationM { pages: self.pages.deep_view(), current: self.current@ }
    }
}

/// Everything extracted from one listing page.
#[derive(Debug, Clone, PartialEq)]
pub struct Results {
    /// Entries of the page, in chronological order (newest last).
    pub entries: Vec<NyaasiEntry>,
    /// Pagination information, when the page has a pagination list.
    pub pagination: Option<Pagination>,
}

/// Mathematical model of [`Results`].
#[verifier::ext_equal]
pub struct ResultsM {
    pub entries: Seq<EntryM>,
    pub pagination: Option<PaginationM>,
}

impl View for Results {
    type V = ResultsM;

    open spec fn view(&self) -> ResultsM {
        ResultsM {
            entries: self.entries.deep_view(),
            pagination: match self.pagination {
                Some(p) => Some(p@),
                None => None,
            },
        }
    }
}

impl Results {
    /// Returns an empty result set, the canonical zero value callers emit
    /// when a parse failed but output is still wanted.
    pub fn empty() -> (r: Results)
        ensures
            r@.entries.len() == 0,
            r@.pagination is None,
    {
        let r = Results { entries: Vec::new(), pagination: None };
        proof {
            assert(r@.entries =~= Seq::<EntryM>::empty());
        }
        r
    }
}

/// The derived exact-length of a parsed magnet parameter list.
pub open spec fn spec_magnet_length(pm: Option<Seq<(Seq<char>, Seq<char>)>>) -> Option<u64> {
    match pm {
        None => None,
        Some(ps) => match spec_lookup(ps, "xl"@) {
            None => None,
            Some(v) => match spec_parse_u64(v) {
                Ok(x) => Some(x),
                Err(_) => None,
            },
        },
    }
}

pub open spec fn sel_size_m() -> crate::selector::SelM {
    sel_center_col_m(4, "td.text-center:nth-child(4)"@)
}

pub open spec fn sel_date_m() -> crate::selector::SelM {
    sel_center_col_m(5, "td.text-center:nth-child(5)"@)
}

pub open spec fn sel_seeders_m() -> crate::selector::SelM {
    sel_center_col_m(6, "td.text-center:nth-child(6)"@)
}

pub open spec fn sel_leechers_m() -> crate::selector::SelM {
    sel_center_col_m(7, "td.text-center:nth-child(7)"@)
}

pub open spec fn sel_downloads_m() -> crate::selector::SelM {
    sel_center_col_m(8, "td.text-center:nth-child(8)"@)
}

/// The lenient comment count: a missing comment marker counts as zero,
/// but text that is present and unparsable fails the row.
pub open spec fn spec_comments(d: DomNode, row: Seq<usize>) -> Result<u32, ErrM> {
    let t = match spec_sel_text(d, row, sel_comments_m()) {
        Ok(t) => t,
        Err(_) => "0"@,
    };
    match spec_parse_u32(t) {
        Ok(v) => Ok(v),
        Err(ie) => Err(
            ErrM::FieldParseError { field: "comment count"@, raw: t, cause: ie.spec_message() },
        ),
    }
}

/// Everything one table row yields, in the order the fields are read:
/// the magnet link first, then the raw size, then each entry field.
pub open spec fn spec_extract_entry(
    d: DomNode,
    row: Seq<usize>,
    base: Seq<char>,
    norm: Seq<char>,
) -> Result<EntryM, ErrM> {
    match spec_sel_parent_href(d, row, sel_row_magnet_m(), base, norm) {
        Err(e) => Err(e),
        Ok(raw_magnet) => {
            let parsed_magnet = if spec_magnet_ok(raw_magnet) {
                Some(spec_magnet_pairs(raw_magnet))
            } else {
                None
            };
            match spec_sel_text(d, row, sel_size_m()) {
                Err(e) => Err(e),
                Ok(raw_size) => match spec_sel(d, row, sel_name_m()) {
                    Err(e) => Err(e),
                    Ok(qn) => match spec_href(d, qn, base, norm) {
                        Err(e) => Err(e),
                        Ok(url_v) => match spec_attr(d, row, "class"@) {
                            Err(e) => Err(e),
                            Ok(cls) => match spec_sel_text(d, row, sel_name_m()) {
                                Err(e) => Err(e),
                                Ok(name_v) => match spec_comments(d, row) {
                                    Err(e) => Err(e),
                                    Ok(comments) => match spec_sel_parent_href(
                                        d,
                                        row,
                                        sel_row_torrent_m(),
                                        base,
                                        norm,
                                    ) {
                                        Err(e) => Err(e),
                                        Ok(torrent) => match spec_sel_text(d, row, sel_date_m()) {
                                            Err(e) => Err(e),
                                            Ok(date) => match spec_sel_u32(
                                                d,
                                                row,
                                                sel_seeders_m(),
                                            ) {
                                                Err(e) => Err(e),
                                                Ok(seeders) => match spec_sel_u32(
                                                    d,
                                                    row,
                                                    sel_leechers_m(),
                                                ) {
                                                    Err(e) => Err(e),
                                                    Ok(leechers) => match spec_sel_u32(
                                                        d,
                                                        row,
                                                        sel_downloads_m(),
                                                    ) {
                                                        Err(e) => Err(e),
                                                        Ok(downloads) => Ok(
                                                            EntryM {
                                                                url: url_v,
                                                                kind: spec_kind_of(cls),
                                                                name: name_v,
                                                                comments,
                                                                links: LinksM {
                                                                    torrent,
                                                                    magnet: raw_magnet,
                                                                    parsed_magnet,
                                                                },
                                                                sizes: SizesM {
                                                                    raw: raw_size,
                                                                    parsed_from_magnet:
                                                                        spec_magnet_length(
                                                                        parsed_magnet,
                                                                    ),
                                                                    parsed_from_raw: match
                                                                        spec_size_parse(raw_size) {
                                                                        Ok(v) => Some(v),
                                                                        Err(_) => None,
                                                                    },
                                                                },
                                                                date,
                                                                seeders,
                                                                leechers,
                                                                downloads,
                                                            },
                                                        ),
                                                    },
                                                },
                                            },
                                        },
                                    },
                                },
                            },
                        },
                    },
                },
            }
        },
    }
}

/// Extracts one entry from the row at `row`.
#[verifier::rlimit(60)]
pub fn extract_entry(d: &DomNode, row: &Vec<usize>, base: &str, norm: &str) -> (r: Result<
    NyaasiEntry,
    ParseError,
>)
    ensures
        match r {
            Ok(entry) => spec_extract_entry(*d, row@, base@, norm@) == Ok::<EntryM, ErrM>(entry@),
            Err(e) => spec_extract_entry(*d, row@, base@, norm@) == Err::<EntryM, ErrM>(e@),
        },
{
    let raw_magnet = match select_parent_href(d, row, &sel_row_magnet(), base, norm) {
        Ok(u) => u,
        Err(e) => {
            return Err(e);
        },
    };
    let parsed_magnet = MagnetURI::parse(raw_magnet.as_str());
    let magnet_size = match &parsed_magnet {
        Some(m) => m.length(),
        None => None,
    };
    let raw_size = match select_text(d, row, &sel_center_col(4, "td.text-center:nth-child(4)")) {
        Ok(t) => t,
        Err(e) => {
            return Err(e);
        },
    };
    let qn = match select(d, row, &sel_name()) {
        Ok(q) => q,
        Err(e) => {
            return Err(e);
        },
    };
    let url_v = match href(d, &qn, base, norm) {
        Ok(u) => u,
        Err(e) => {
            return Err(e);
        },
    };
    let cls = match attr(d, row, "class") {
        Ok(c) => c,
        Err(e) => {
            return Err(e);
        },
    };
    let kind = EntryKind::from_class_name(cls.as_str());
    let name_v = match select_text(d, row, &sel_name()) {
        Ok(t) => t,
        Err(e) => {
            return Err(e);
        },
    };
    let comments = match comments_of(d, row) {
        Ok(v) => v,
        Err(e) => {
            return Err(e);
        },
    };
    let torrent = match select_parent_href(d, row, &sel_row_torrent(), base, norm) {
        Ok(u) => u,
        Err(e) => {
            return Err(e);
        },
    };
    let date = match select_text(d, row, &sel_center_col(5, "td.text-center:nth-child(5)")) {
        Ok(t) => t,
        Err(e) => {
            return Err(e);
        },
    };
    let seeders = match select_u32(d, row, &sel_center_col(6, "td.text-center:nth-child(6)")) {
        Ok(v) => v,
        Err(e) => {
            return Err(e);
        },
    };
    let leechers = match select_u32(d, row, &sel_center_col(7, "td.text-center:nth-child(7)")) {
        Ok(v) => v,
        Err(e) => {
            return Err(e);
        },
    };
    let downloads = match select_u32(d, row, &sel_center_col(8, "td.text-center:nth-child(8)")) {
        Ok(v) => v,
        Err(e) => {
            return Err(e);
        },
    };
    let parsed_from_raw = match size_parser::parse(raw_size.as_str()) {
        Ok(v) => Some(v),
        Err(_) => None,
    };
    let entry = NyaasiEntry {
        url: url_v,
        kind,
        name: name_v,
        comments,
        links: Links { torrent, magnet: raw_magnet, parsed_magnet },
        sizes: Sizes { raw: raw_size, parsed_from_magnet: magnet_size, parsed_from_raw },
        date,
        seeders,
        leechers,
        downloads,
    };
    proof {
        assert(spec_extract_entry(*d, row@, base@, norm@) == Ok::<EntryM, ErrM>(entry@)) by {
            assert(entry@ =~~= spec_extract_entry(*d, row@, base@, norm@)->Ok_0);
        }
    }
    Ok(entry)
}

/// The lenient comment count of a row.
fn comments_of(d: &DomNode, row: &Vec<usize>) -> (r: Result<u32, ParseError>)
    ensures
        match r {
            Ok(v) => spec_comments(*d, row@) == Ok::<u32, ErrM>(v),
            Err(e) => spec_comments(*d, row@) == Err::<u32, ErrM>(e@),
        },
{
    let t = match select_text(d, row, &sel_comments()) {
        Ok(t) => t,
        Err(_) => "0".to_owned(),
    };
    match parse_u32(t.as_str()) {
        Ok(v) => Ok(v),
        Err(ie) => Err(
            ParseError::FieldParseError {
                field: "comment count".to_owned(),
                raw: t,
                cause: ie.message(),
            },
        ),
    }
}

/// What one pagination anchor yields: its resolved URL and the page number
/// parsed from the first token of its text.
pub open spec fn spec_make_page(
    d: DomNode,
    q: Seq<usize>,
    base: Seq<char>,
    norm: Seq<char>,
) -> Result<PageM, ErrM> {
    match spec_href(d, q, base, norm) {
        Err(e) => Err(e),
        Ok(u) => {
            let t = match spec_node_at(d, q) {
                Some(n) => n.spec_text_contents(),
                None => Seq::empty(),
            };
            match spec_first_token(t) {
                None => Err(
                    ErrM::FieldParseError {
                        field: "page number"@,
                        raw: t,
                        cause: "Empty page element content"@,
                    },
                ),
                Some(tok) => match spec_parse_u32(tok) {
                    Ok(n) => Ok(PageM { url: u, number: n }),
                    Err(ie) => Err(
                        ErrM::FieldParseError {
                            field: "page number"@,
                            raw: tok,
                            cause: ie.spec_message(),
                        },
                    ),
                },
            }
        },
    }
}

/// Builds one [`Page`] from a pagination anchor.
pub fn make_page(d: &DomNode, q: &Vec<usize>, base: &str, norm: &str) -> (r: Result<
    Page,
    ParseError,
>)
    ensures
        match r {
            Ok(p) => spec_make_page(*d, q@, base@, norm@) == Ok::<PageM, ErrM>(p@),
            Err(e) => spec_make_page(*d, q@, base@, norm@) == Err::<PageM, ErrM>(e@),
        },
{
    let u = match href(d, q, base, norm) {
        Ok(u) => u,
        Err(e) => {
            return Err(e);
        },
    };
    let t = match node_at(d, q) {
        Some(n) => n.text_contents(),
        None => String::new(),
    };
    let n = t.as_str().unicode_len();
    let a = skip_spaces(t.as_str(), 0, n);
    if a >= n {
        return Err(
            ParseError::FieldParseError {
                field: "page number".to_owned(),
                raw: t,
                cause: "Empty page element content".to_owned(),
            },
        );
    }
    let b = token_end(t.as_str(), a, n);
    let tok = t.as_str().substring_char(a, b);
    match parse_u32(tok) {
        Ok(num) => Ok(Page { url: u, number: num }),
        Err(ie) => Err(
            ParseError::FieldParseError {
                field: "page number".to_owned(),
                raw: tok.to_owned(),
                cause: ie.message(),
            },
        ),
    }
}

/// All pages built from the pagination anchors, failing on the first bad one.
pub open spec fn spec_pages(
    d: DomNode,
    qs: Seq<Seq<usize>>,
    base: Seq<char>,
    norm: Seq<char>,
) -> Result<Seq<PageM>, ErrM>
    decreases qs.len(),
{
    if qs.len() == 0 {
        Ok(Seq::empty())
    } else {
        match spec_make_page(d, qs[0], base, norm) {
            Err(e) => Err(e),
            Ok(p) => match spec_pages(d, qs.drop_first(), base, norm) {
                Err(e) => Err(e),
                Ok(rest) => Ok(seq![p] + rest),
            },
        }
    }
}

#[verifier::loop_isolation(false)]
fn pages_of(d: &DomNode, qs: &Vec<Vec<usize>>, base: &str, norm: &str) -> (r: Result<
    Vec<Page>,
    ParseError,
>)
    ensures
        match r {
            Ok(ps) => spec_pages(*d, qs.deep_view(), base@, norm@) == Ok::<Seq<PageM>, ErrM>(
                ps.deep_view(),
            ),
            Err(e) => spec_pages(*d, qs.deep_view(), base@, norm@) == Err::<Seq<PageM>, ErrM>(e@),
        },
{
    let ghost dv = qs.deep_view();
    let mut out: Vec<Page> = Vec::new();
    let mut i: usize = 0;
    proof {
        assert(dv.skip(0) =~= dv);
        assert(out.deep_view() =~= Seq::<PageM>::empty());
    }
    while i < qs.len()
        invariant
            i <= qs@.len(),
            dv.len() == qs@.len(),
            spec_pages(*d, dv, base@, norm@) == (match spec_pages(
                *d,
                dv.skip(i as int),
                base@,
                norm@,
            ) {
                Ok(rest) => Ok::<Seq<PageM>, ErrM>(out.deep_view() + rest),
                Err(e) => Err::<Seq<PageM>, ErrM>(e),
            }),
        decreases qs@.len() - i,
    {
        proof {
            let tail = dv.skip(i as int);
            assert(tail[0] == dv[i as int]);
            assert(dv[i as int] == qs@[i as int].deep_view());
            assert(qs@[i as int].deep_view() == qs@[i as int]@);
            assert(tail.drop_first() =~= dv.skip(i as int + 1));
        }
        match make_page(d, &qs[i], base, norm) {
            Ok(p) => {
                let ghost before = out.deep_view();
                let ghost pv = p@;
                out.push(p);
                proof {
                    assert(out.deep_view() =~~= before.push(pv));
                    let nxt = spec_pages(*d, dv.skip(i as int + 1), base@, norm@);
                    if nxt is Ok {
                        let rest = nxt->Ok_0;
                        assert(spec_pages(*d, dv.skip(i as int), base@, norm@) == Ok::<
                            Seq<PageM>,
                            ErrM,
                        >(seq![pv] + rest));
                        assert(before + (seq![pv] + rest) =~= out.deep_view() + rest);
                    }
                }
            },
            Err(e) => {
                return Err(e);
            },
        }
        i = i + 1;
    }
    proof {
        assert(dv.skip(dv.len() as int) =~= Seq::<Seq<usize>>::empty());
        assert(out.deep_view() + Seq::<PageM>::empty() =~= out.deep_view());
    }
    Ok(out)
}

/// All entries of the listed rows, in document order, failing fast.
pub open spec fn spec_entries(
    d: DomNode,
    rows: Seq<Seq<usize>>,
    base: Seq<char>,
    norm: Seq<char>,
) -> Result<Seq<EntryM>, ErrM>
    decreases rows.len(),
{
    if rows.len() == 0 {
        Ok(Seq::empty())
    } else {
        match spec_extract_entry(d, rows[0], base, norm) {
            Err(e) => Err(e),
            Ok(en) => match spec_entries(d, rows.drop_first(), base, norm) {
                Err(e) => Err(e),
                Ok(rest) => Ok(seq![en] + rest),
            },
        }
    }
}

#[verifier::loop_isolation(false)]
fn entries_of(d: &DomNode, rows: &Vec<Vec<usize>>, base: &str, norm: &str) -> (r: Result<
    Vec<NyaasiEntry>,
    ParseError,
>)
    ensures
        match r {
            Ok(es) => spec_entries(*d, rows.deep_view(), base@, norm@) == Ok::<Seq<EntryM>, ErrM>(
                es.deep_view(),
            ),
            Err(e) => spec_entries(*d, rows.deep_view(), base@, norm@) == Err::<
                Seq<EntryM>,
                ErrM,
            >(e@),
        },
{
    let ghost dv = rows.deep_view();
    let mut out: Vec<NyaasiEntry> = Vec::new();
    let mut i: usize = 0;
    proof {
        assert(dv.skip(0) =~= dv);
        assert(out.deep_view() =~= Seq::<EntryM>::empty());
    }
    while i < rows.len()
        invariant
            i <= rows@.len(),
            dv.len() == rows@.len(),
            spec_entries(*d, dv, base@, norm@) == (match spec_entries(
                *d,
                dv.skip(i as int),
                base@,
                norm@,
            ) {
                Ok(rest) => Ok::<Seq<EntryM>, ErrM>(out.deep_view() + rest),
                Err(e) => Err::<Seq<EntryM>, ErrM>(e),
            }),
        decreases rows@.len() - i,
    {
        proof {
            let tail = dv.skip(i as int);
            assert(tail[0] == dv[i as int]);
            assert(dv[i as int] == rows@[i as int].deep_view());
            assert(rows@[i as int].deep_view() == rows@[i as int]@);
            assert(tail.drop_first() =~= dv.skip(i as int + 1));
        }
        match extract_entry(d, &rows[i], base, norm) {
            Ok(en) => {
                let ghost before = out.deep_view();
                let ghost env = en@;
                out.push(en);
                proof {
                    assert(out.deep_view() =~~= before.push(env));
                    let nxt = spec_entries(*d, dv.skip(i as int + 1), base@, norm@);
                    if nxt is Ok {
                        let rest = nxt->Ok_0;
                        assert(spec_entries(*d, dv.skip(i as int), base@, norm@) == Ok::<
                            Seq<EntryM>,
                            ErrM,
                        >(seq![env] + rest));
                        assert(before + (seq![env] + rest) =~= out.deep_view() + rest);
                    }
                }
            },
            Err(e) => {
                return Err(e);
            },
        }
        i = i + 1;
    }
    proof {
        assert(dv.skip(dv.len() as int) =~= Seq::<Seq<usize>>::empty());
        assert(out.deep_view() + Seq::<EntryM>::empty() =~= out.deep_view());
    }
    Ok(out)
}

/// The pagination of the page: absent when there is no active-page marker,
/// and an error (wrapped as `PaginationError`) when it is present but
/// cannot be extracted.
pub open spec fn spec_pagination(d: DomNode, base: Seq<char>, norm: Seq<char>) -> Result<
    Option<PaginationM>,
    ErrM,
> {
    match spec_select_first(d, Seq::empty(), sel_page_current_m()) {
        None => Ok(None),
        Some(qc) => match spec_make_page(d, qc, base, norm) {
            Err(e) => Err(ErrM::PaginationError { cause: Box::new(e) }),
            Ok(current) => {
                let qs = spec_select(d, Seq::empty(), sel_page_links_m());
                match spec_pages(d, qs, base, norm) {
                    Err(e) => Err(ErrM::PaginationError { cause: Box::new(e) }),
                    Ok(pages) => Ok(Some(PaginationM { pages, current })),
                }
            },
        },
    }
}

fn pagination_of(d: &DomNode, base: &str, norm: &str) -> (r: Result<Option<Pagination>, ParseError>)
    ensures
        match r {
            Ok(pg) => spec_pagination(*d, base@, norm@) == Ok::<Option<PaginationM>, ErrM>(
                match pg {
                    Some(p) => Some(p@),
                    None => None,
                },
            ),
            Err(e) => spec_pagination(*d, base@, norm@) == Err::<Option<PaginationM>, ErrM>(e@),
        },
{
    let root: Vec<usize> = Vec::new();
    proof {
        assert(root@ =~= Seq::<usize>::empty());
    }
    let qc = match select_first(d, &root, &sel_page_current()) {
        None => {
            return Ok(None);
        },
        Some(q) => q,
    };
    let current = match make_page(d, &qc, base, norm) {
        Ok(p) => p,
        Err(e) => {
            return Err(ParseError::PaginationError { cause: Box::new(e) });
        },
    };
    let qs = select_all(d, &root, &sel_page_links());
    let pages = match pages_of(d, &qs, base, norm) {
        Ok(ps) => ps,
        Err(e) => {
            return Err(ParseError::PaginationError { cause: Box::new(e) });
        },
    };
    Ok(Some(Pagination { pages, current }))
}

/// The first `m` steps of a path.
fn path_prefix(v: &Vec<usize>, m: usize) -> (r: Vec<usize>)
    requires
        m <= v@.len(),
    ensures
        r@ == v@.take(m as int),
{
    let mut out: Vec<usize> = Vec::new();
    let mut i: usize = 0;
    while i < m
        invariant
            i <= m <= v@.len(),
            out@ == v@.take(i as int),
        decreases m - i,
    {
        out.push(v[i]);
        proof {
            assert(v@.take(i as int).push(v@[i as int]) =~= v@.take(i as int + 1));
        }
        i = i + 1;
    }
    out
}

/// Reverses a vector of entries.
fn reverse_entries(v: Vec<NyaasiEntry>) -> (r: Vec<NyaasiEntry>)
    ensures
        r.deep_view() == v.deep_view().reverse(),
{
    let ghost dv = v.deep_view();
    let mut src = v;
    let mut out: Vec<NyaasiEntry> = Vec::new();
    proof {
        assert(src.deep_view() =~= dv.take(src.deep_view().len() as int));
    }
    while src.len() > 0
        invariant
            src.deep_view().len() + out.deep_view().len() == dv.len(),
            src.deep_view() == dv.take(src.deep_view().len() as int),
            forall|j: int|
                0 <= j < out.deep_view().len() ==> #[trigger] out.deep_view()[j] == dv[dv.len() - 1
                    - j],
        decreases src@.len(),
    {
        let ghost sl = src.deep_view().len() as int;
        let ghost before = out.deep_view();
        let x = src.pop().unwrap();
        proof {
            assert(src.deep_view() =~~= dv.take(sl).drop_last());
            assert(dv.take(sl).drop_last() =~= dv.take(sl - 1));
            assert(x@ == dv.take(sl)[sl - 1]);
        }
        out.push(x);
        proof {
            assert(out.deep_view() =~~= before.push(dv[sl - 1]));
        }
    }
    proof {
        assert(out.deep_view() =~~= dv.reverse());
    }
    out
}

/// Everything [`parse_html`] does, as a function of the document tree and
/// the caller-supplied URL.
pub open spec fn spec_parse_dom(d: DomNode, url: Seq<char>) -> Result<ResultsM, ErrM> {
    match url_norm(url) {
        None => Err(ErrM::InvalidBaseUrl),
        Some(norm) => match spec_select_first(d, Seq::empty(), sel_marker_m()) {
            None => Err(ErrM::TableNotFound),
            Some(q) => if q.len() < 5 {
                Err(ErrM::TableNotFound)
            } else {
                let table = q.take(q.len() - 5);
                let rows = spec_select(d, table, sel_rows_m());
                match spec_entries(d, rows, url, norm) {
                    Err(e) => Err(e),
                    Ok(es) => match spec_pagination(d, url, norm) {
                        Err(e) => Err(e),
                        Ok(pg) => Ok(ResultsM { entries: es.reverse(), pagination: pg }),
                    },
                }
            },
        },
    }
}

/// Everything [`parse_html`] does, as a function of the HTML text and the
/// caller-supplied URL alone.
pub open spec fn spec_parse_html(html: Seq<char>, url: Seq<char>) -> Result<ResultsM, ErrM> {
    spec_parse_dom(dom_of(html), url)
}

/// Parses the HTML source of one listing page, together with the URL it
/// was fetched from, into a [`Results`].
///
/// The URL is parsed first (`InvalidBaseUrl` on failure); the results
/// table is located through its first magnet icon (`TableNotFound` when it
/// is missing); every row is extracted in document order, failing fast on
/// the first bad row; the row order is then reversed exactly once, so that
/// the newest-first document order becomes oldest-first; and pagination is
/// extracted last, absent when the page has no active-page marker.
pub fn parse_html(html: &str, url: &str) -> (r: Result<Results, ParseError>)
    ensures
        match r {
            Ok(res) => spec_parse_html(html@, url@) == Ok::<ResultsM, ErrM>(res@),
            Err(e) => spec_parse_html(html@, url@) == Err::<ResultsM, ErrM>(e@),
        },
{
    let norm = match parse_base_url(url) {
        Some(n) => n,
        None => {
            return Err(ParseError::InvalidBaseUrl);
        },
    };
    let dom = dom_from_html(html);
    let root: Vec<usize> = Vec::new();
    proof {
        assert(root@ =~= Seq::<usize>::empty());
    }
    let q = match select_first(&dom, &root, &sel_marker()) {
        Some(q) => q,
        None => {
            return Err(ParseError::TableNotFound);
        },
    };
    if q.len() < 5 {
        return Err(ParseError::TableNotFound);
    }
    let table = path_prefix(&q, q.len() - 5);
    let rows = select_all(&dom, &table, &sel_rows());
    let entries = match entries_of(&dom, &rows, url, norm.as_str()) {
        Ok(es) => es,
        Err(e) => {
            return Err(e);
        },
    };
    let pagination = match pagination_of(&dom, url, norm.as_str()) {
        Ok(pg) => pg,
        Err(e) => {
            return Err(e);
        },
    };
    let res = Results { entries: reverse_entries(entries), pagination };
    proof {
        assert(spec_parse_html(html@, url@) == Ok::<ResultsM, ErrM>(res@)) by {
            assert(res@ =~~= spec_parse_dom(dom_of(html@), url@)->Ok_0);
        }
    }
    Ok(res)
}

/// Round-trip ordering: a successful parse returns the extracted rows in
/// exactly the reverse of their document order, so the first entry is the
/// document's last (oldest) row and the last entry its first (newest).
pub proof fn lemma_round_trip_ordering(d: DomNode, url: Seq<char>, res: ResultsM)
    requires
        spec_parse_dom(d, url) == Ok::<ResultsM, ErrM>(res),
    ensures
        ({
            let norm = url_norm(url)->Some_0;
            let q = spec_select_first(d, Seq::empty(), sel_marker_m())->Some_0;
            let rows = spec_select(d, q.take(q.len() - 5), sel_rows_m());
            let es = spec_entries(d, rows, url, norm)->Ok_0;
            &&& res.entries.len() == es.len()
            &&& forall|i: int|
                0 <= i < es.len() ==> #[trigger] res.entries[i] == es[es.len() - 1 - i]
        }),
{
}

/// Fail-fast on a missing table: when no node of the document matches the
/// results-table marker, the parse yields `TableNotFound` — there is no
/// partial result of any kind.
pub proof fn lemma_fail_fast_no_marker(d: DomNode, url: Seq<char>)
    requires
        url_norm(url) is Some,
        forall|q: Seq<usize>| !crate::selector::spec_matches_at(d, q, sel_marker_m()),
    ensures
        spec_parse_dom(d, url) == Err::<ResultsM, ErrM>(ErrM::TableNotFound),
{
    if spec_select(d, Seq::empty(), sel_marker_m()).len() > 0 {
        crate::selector::lemma_select_sound(d, Seq::empty(), sel_marker_m(), 0);
    }
}

/// Idempotence: parsing the same HTML/URL pair twice yields equal results,
/// because the outcome is a function of the two strings alone.
pub proof fn lemma_parse_idempotent(
    html: Seq<char>,
    url: Seq<char>,
    r1: Result<ResultsM, ErrM>,
    r2: Result<ResultsM, ErrM>,
)
    requires
        r1 == spec_parse_html(html, url),
        r2 == spec_parse_html(html, url),
    ensures
        r1 == r2,
{
}

proof fn lemma_spec_pages_pointwise(d: DomNode, qs: Seq<Seq<usize>>, base: Seq<char>, norm: Seq<char>)
    requires
        spec_pages(d, qs, base, norm) is Ok,
    ensures
        spec_pages(d, qs, base, norm)->Ok_0.len() == qs.len(),
        forall|i: int|
            0 <= i < qs.len() ==> spec_make_page(d, #[trigger] qs[i], base, norm) == Ok::<
                PageM,
                ErrM,
            >(spec_pages(d, qs, base, norm)->Ok_0[i]),
    decreases qs.len(),
{
    if qs.len() > 0 {
        lemma_spec_pages_pointwise(d, qs.drop_first(), base, norm);
        let p = spec_make_page(d, qs[0], base, norm)->Ok_0;
        let rest = spec_pages(d, qs.drop_first(), base, norm)->Ok_0;
        assert(spec_pages(d, qs, base, norm)->Ok_0 == seq![p] + rest);
        assert(forall|i: int|
            1 <= i < qs.len() ==> #[trigger] qs[i] == qs.drop_first()[i - 1]);
        assert(forall|i: int| 1 <= i < qs.len() ==> (seq![p] + rest)[i] == rest[i - 1]);
    }
}

/// The current page appears among the listed pages whenever its anchor is
/// itself one of the page links (on the expected layout it always is: the
/// active item carries neither the disabled nor the next class, and its
/// anchor has no rel attribute).
pub proof fn lemma_current_page_listed(d: DomNode, base: Seq<char>, norm: Seq<char>, pg: PaginationM)
    requires
        spec_pagination(d, base, norm) == Ok::<Option<PaginationM>, ErrM>(Some(pg)),
        spec_select(d, Seq::empty(), sel_page_links_m()).contains(
            spec_select_first(d, Seq::empty(), sel_page_current_m())->Some_0,
        ),
    ensures
        exists|i: int|
            0 <= i < pg.pages.len() && #[trigger] pg.pages[i].number == pg.current.number,
{
    let qc = spec_select_first(d, Seq::empty(), sel_page_current_m())->Some_0;
    let qs = spec_select(d, Seq::empty(), sel_page_links_m());
    lemma_spec_pages_pointwise(d, qs, base, norm);
    let i = choose|i: int| 0 <= i < qs.len() && qs[i] == qc;
    assert(spec_make_page(d, qs[i], base, norm) == Ok::<PageM, ErrM>(pg.pages[i]));
    assert(pg.pages[i] == pg.current);
    assert(pg.pages[i].number == pg.current.number);
}

/// Pagination consistency: when the extracted page numbers are distinct
/// and the current page's number appears among them, exactly one page in
/// the list carries the current number.  (A crafted document can defeat
/// either premise: two sibling links may spell the same number, and an
/// active item that also carries the disabled class is excluded from the
/// page list.)
pub proof fn lemma_pagination_consistency(p: PaginationM)
    requires
        forall|i: int, j: int|
            0 <= i < j < p.pages.len() ==> #[trigger] p.pages[i].number
                != #[trigger] p.pages[j].number,
        exists|i: int| 0 <= i < p.pages.len() && #[trigger] p.pages[i].number == p.current.number,
    ensures
        exists|i: int|
            {
                &&& 0 <= i < p.pages.len()
                &&& #[trigger] p.pages[i].number == p.current.number
                &&& forall|j: int|
                    0 <= j < p.pages.len() && #[trigger] p.pages[j].number == p.current.number
                        ==> j == i
            },
{
    let i = choose|i: int|
        0 <= i < p.pages.len() && #[trigger] p.pages[i].number == p.current.number;
    assert forall|j: int|
        0 <= j < p.pages.len() && #[trigger] p.pages[j].number == p.current.number implies j
        == i by {
        if j < i {
            assert(p.pages[j].number != p.pages[i].number);
        } else if j > i {
            assert(p.pages[i].number != p.pages[j].number);
        }
    }
}

} // verus!

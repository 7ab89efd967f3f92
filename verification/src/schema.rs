//! The fixed selector schema of the listing layout.
//!
//! The site layout this library understands is one fixed table: a magnet
//! icon marks the results table, each row holds the same eight columns, and
//! pagination is a `ul.pagination` list.  Each selector below exists both
//! as a mathematical constant (`*_m`) and as a constructor returning the
//! matching executable [`Selector`].

use vstd::prelude::*;

use crate::selector::{SelM, Selector, SimpleSel, SimpleSelM};

verus! {

/// A compound selector model with the given pieces.
pub open spec fn part_m(
    tag: Option<Seq<char>>,
    classes: Seq<Seq<char>>,
    nth_child: Option<int>,
    not_classes: Seq<Seq<char>>,
    not_attrs: Seq<Seq<char>>,
) -> SimpleSelM {
    SimpleSelM { tag, classes, nth_child, not_classes, not_attrs }
}

fn part_tag(t: &str) -> (p: SimpleSel)
    ensures
        p@ == part_m(Some(t@), Seq::empty(), None, Seq::empty(), Seq::empty()),
{
    let p = SimpleSel {
        tag: Some(t.to_owned()),
        classes: Vec::new(),
        nth_child: None,
        not_classes: Vec::new(),
        not_attrs: Vec::new(),
    };
    proof {
        assert(p@ =~~= part_m(Some(t@), Seq::empty(), None, Seq::empty(), Seq::empty()));
    }
    p
}

fn part_tag_class(t: &str, c: &str) -> (p: SimpleSel)
    ensures
        p@ == part_m(Some(t@), seq![c@], None, Seq::empty(), Seq::empty()),
{
    let mut classes: Vec<String> = Vec::new();
    classes.push(c.to_owned());
    let p = SimpleSel {
        tag: Some(t.to_owned()),
        classes,
        nth_child: None,
        not_classes: Vec::new(),
        not_attrs: Vec::new(),
    };
    proof {
        assert(p@ =~~= part_m(Some(t@), seq![c@], None, Seq::empty(), Seq::empty()));
    }
    p
}

fn part_tag_class_nth(t: &str, c: &str, n: usize) -> (p: SimpleSel)
    ensures
        p@ == part_m(Some(t@), seq![c@], Some(n as int), Seq::empty(), Seq::empty()),
{
    let mut classes: Vec<String> = Vec::new();
    classes.push(c.to_owned());
    let p = SimpleSel {
        tag: Some(t.to_owned()),
        classes,
        nth_child: Some(n),
        not_classes: Vec::new(),
        not_attrs: Vec::new(),
    };
    proof {
        assert(p@ =~~= part_m(Some(t@), seq![c@], Some(n as int), Seq::empty(), Seq::empty()));
    }
    p
}

fn part_tag_nth(t: &str, n: usize) -> (p: SimpleSel)
    ensures
        p@ == part_m(Some(t@), Seq::empty(), Some(n as int), Seq::empty(), Seq::empty()),
{
    let p = SimpleSel {
        tag: Some(t.to_owned()),
        classes: Vec::new(),
        nth_child: Some(n),
        not_classes: Vec::new(),
        not_attrs: Vec::new(),
    };
    proof {
        assert(p@ =~~= part_m(Some(t@), Seq::empty(), Some(n as int), Seq::empty(), Seq::empty()));
    }
    p
}

fn part_tag_not_class(t: &str, nc: &str) -> (p: SimpleSel)
    ensures
        p@ == part_m(Some(t@), Seq::empty(), None, seq![nc@], Seq::empty()),
{
    let mut not_classes: Vec<String> = Vec::new();
    not_classes.push(nc.to_owned());
    let p = SimpleSel {
        tag: Some(t.to_owned()),
        classes: Vec::new(),
        nth_child: None,
        not_classes,
        not_attrs: Vec::new(),
    };
    proof {
        assert(p@ =~~= part_m(Some(t@), Seq::empty(), None, seq![nc@], Seq::empty()));
    }
    p
}

fn part_tag_not_classes2(t: &str, nc1: &str, nc2: &str) -> (p: SimpleSel)
    ensures
        p@ == part_m(Some(t@), Seq::empty(), None, seq![nc1@, nc2@], Seq::empty()),
{
    let mut not_classes: Vec<String> = Vec::new();
    not_classes.push(nc1.to_owned());
    not_classes.push(nc2.to_owned());
    let p = SimpleSel {
        tag: Some(t.to_owned()),
        classes: Vec::new(),
        nth_child: None,
        not_classes,
        not_attrs: Vec::new(),
    };
    proof {
        assert(p@ =~~= part_m(Some(t@), Seq::empty(), None, seq![nc1@, nc2@], Seq::empty()));
    }
    p
}

fn part_tag_not_attr(t: &str, na: &str) -> (p: SimpleSel)
    ensures
        p@ == part_m(Some(t@), Seq::empty(), None, Seq::empty(), seq![na@]),
{
    let mut not_attrs: Vec<String> = Vec::new();
    not_attrs.push(na.to_owned());
    let p = SimpleSel {
        tag: Some(t.to_owned()),
        classes: Vec::new(),
        nth_child: None,
        not_classes: Vec::new(),
        not_attrs,
    };
    proof {
        assert(p@ =~~= part_m(Some(t@), Seq::empty(), None, Seq::empty(), seq![na@]));
    }
    p
}

/// `div.table-responsive > table > tbody > tr > td.text-center > a > i.fa-magnet`:
/// the first magnet icon, used to locate the results table.
pub open spec fn sel_marker_m() -> SelM {
    SelM {
        parts: seq![
            part_m(Some("div"@), seq!["table-responsive"@], None, Seq::empty(), Seq::empty()),
            part_m(Some("table"@), Seq::empty(), None, Seq::empty(), Seq::empty()),
            part_m(Some("tbody"@), Seq::empty(), None, Seq::empty(), Seq::empty()),
            part_m(Some("tr"@), Seq::empty(), None, Seq::empty(), Seq::empty()),
            part_m(Some("td"@), seq!["text-center"@], None, Seq::empty(), Seq::empty()),
            part_m(Some("a"@), Seq::empty(), None, Seq::empty(), Seq::empty()),
            part_m(Some("i"@), seq!["fa-magnet"@], None, Seq::empty(), Seq::empty()),
        ],
        source: "div.table-responsive > table > tbody > tr > td.text-center > a > i.fa-magnet"@,
    }
}

pub fn sel_marker() -> (s: Selector)
    ensures
        s@ == sel_marker_m(),
{
    let mut parts: Vec<SimpleSel> = Vec::new();
    parts.push(part_tag_class("div", "table-responsive"));
    parts.push(part_tag("table"));
    parts.push(part_tag("tbody"));
    parts.push(part_tag("tr"));
    parts.push(part_tag_class("td", "text-center"));
    parts.push(part_tag("a"));
    parts.push(part_tag_class("i", "fa-magnet"));
    let s = Selector {
        parts,
        source: "div.table-responsive > table > tbody > tr > td.text-center > a > i.fa-magnet"
            .to_owned(),
    };
    proof {
        assert(s@.parts =~~= sel_marker_m().parts);
        assert(s@ =~~= sel_marker_m());
    }
    s
}

/// `tbody > tr`: the rows of the located table.
pub open spec fn sel_rows_m() -> SelM {
    SelM {
        parts: seq![
            part_m(Some("tbody"@), Seq::empty(), None, Seq::empty(), Seq::empty()),
            part_m(Some("tr"@), Seq::empty(), None, Seq::empty(), Seq::empty()),
        ],
        source: "tbody > tr"@,
    }
}

pub fn sel_rows() -> (s: Selector)
    ensures
        s@ == sel_rows_m(),
{
    let mut parts: Vec<SimpleSel> = Vec::new();
    parts.push(part_tag("tbody"));
    parts.push(part_tag("tr"));
    let s = Selector { parts, source: "tbody > tr".to_owned() };
    proof {
        assert(s@.parts =~~= sel_rows_m().parts);
        assert(s@ =~~= sel_rows_m());
    }
    s
}

/// The magnet icon inside a row's third, centered column.
pub open spec fn sel_row_magnet_m() -> SelM {
    SelM {
        parts: seq![
            part_m(Some("td"@), seq!["text-center"@], Some(3), Seq::empty(), Seq::empty()),
            part_m(Some("a"@), Seq::empty(), None, Seq::empty(), Seq::empty()),
            part_m(Some("i"@), seq!["fa-magnet"@], None, Seq::empty(), Seq::empty()),
        ],
        source: "td.text-center:nth-child(3) > a > i.fa-magnet"@,
    }
}

pub fn sel_row_magnet() -> (s: Selector)
    ensures
        s@ == sel_row_magnet_m(),
{
    let mut parts: Vec<SimpleSel> = Vec::new();
    parts.push(part_tag_class_nth("td", "text-center", 3));
    parts.push(part_tag("a"));
    parts.push(part_tag_class("i", "fa-magnet"));
    let s = Selector { parts, source: "td.text-center:nth-child(3) > a > i.fa-magnet".to_owned() };
    proof {
        assert(s@.parts =~~= sel_row_magnet_m().parts);
        assert(s@ =~~= sel_row_magnet_m());
    }
    s
}

/// The torrent-file icon inside a row's third, centered column.
pub open spec fn sel_row_torrent_m() -> SelM {
    SelM {
        parts: seq![
            part_m(Some("td"@), seq!["text-center"@], Some(3), Seq::empty(), Seq::empty()),
            part_m(Some("a"@), Seq::empty(), None, Seq::empty(), Seq::empty()),
            part_m(Some("i"@), seq!["fa-download"@], None, Seq::empty(), Seq::empty()),
        ],
        source: "td.text-center:nth-child(3) > a > i.fa-download"@,
    }
}

pub fn sel_row_torrent() -> (s: Selector)
    ensures
        s@ == sel_row_torrent_m(),
{
    let mut parts: Vec<SimpleSel> = Vec::new();
    parts.push(part_tag_class_nth("td", "text-center", 3));
    parts.push(part_tag("a"));
    parts.push(part_tag_class("i", "fa-download"));
    let s = Selector {
        parts,
        source: "td.text-center:nth-child(3) > a > i.fa-download".to_owned(),
    };
    proof {
        assert(s@.parts =~~= sel_row_torrent_m().parts);
        assert(s@ =~~= sel_row_torrent_m());
    }
    s
}

/// The name anchor: the second column's link that is not the comment link.
pub open spec fn sel_name_m() -> SelM {
    SelM {
        parts: seq![
            part_m(Some("td"@), Seq::empty(), Some(2), Seq::empty(), Seq::empty()),
            part_m(Some("a"@), Seq::empty(), None, seq!["comments"@], Seq::empty()),
        ],
        source: "td:nth-child(2) > a:not(.comments)"@,
    }
}

pub fn sel_name() -> (s: Selector)
    ensures
        s@ == sel_name_m(),
{
    let mut parts: Vec<SimpleSel> = Vec::new();
    parts.push(part_tag_nth("td", 2));
    parts.push(part_tag_not_class("a", "comments"));
    let s = Selector { parts, source: "td:nth-child(2) > a:not(.comments)".to_owned() };
    proof {
        assert(s@.parts =~~= sel_name_m().parts);
        assert(s@ =~~= sel_name_m());
    }
    s
}

/// The comment-count marker in the first column.
pub open spec fn sel_comments_m() -> SelM {
    SelM {
        parts: seq![
            part_m(Some("td"@), Seq::empty(), Some(1), Seq::empty(), Seq::empty()),
            part_m(Some("a"@), seq!["comments"@], None, Seq::empty(), Seq::empty()),
            part_m(Some("i"@), Seq::empty(), None, Seq::empty(), Seq::empty()),
        ],
        source: "td:nth-child(1) > a.comments > i"@,
    }
}

pub fn sel_comments() -> (s: Selector)
    ensures
        s@ == sel_comments_m(),
{
    let mut parts: Vec<SimpleSel> = Vec::new();
    parts.push(part_tag_nth("td", 1));
    parts.push(part_tag_class("a", "comments"));
    parts.push(part_tag("i"));
    let s = Selector { parts, source: "td:nth-child(1) > a.comments > i".to_owned() };
    proof {
        assert(s@.parts =~~= sel_comments_m().parts);
        assert(s@ =~~= sel_comments_m());
    }
    s
}

/// A centered column by its 1-based position (size, date and the counters).
pub open spec fn sel_center_col_m(n: int, source: Seq<char>) -> SelM {
    SelM {
        parts: seq![part_m(Some("td"@), seq!["text-center"@], Some(n), Seq::empty(), Seq::empty())],
        source: source,
    }
}

pub fn sel_center_col(n: usize, source: &str) -> (s: Selector)
    ensures
        s@ == sel_center_col_m(n as int, source@),
{
    let mut parts: Vec<SimpleSel> = Vec::new();
    parts.push(part_tag_class_nth("td", "text-center", n));
    let s = Selector { parts, source: source.to_owned() };
    proof {
        assert(s@.parts =~~= sel_center_col_m(n as int, source@).parts);
        assert(s@ =~~= sel_center_col_m(n as int, source@));
    }
    s
}

/// `ul.pagination > li.active > a`: the current-page marker.
pub open spec fn sel_page_current_m() -> SelM {
    SelM {
        parts: seq![
            part_m(Some("ul"@), seq!["pagination"@], None, Seq::empty(), Seq::empty()),
            part_m(Some("li"@), seq!["active"@], None, Seq::empty(), Seq::empty()),
            part_m(Some("a"@), Seq::empty(), None, Seq::empty(), Seq::empty()),
        ],
        source: "ul.pagination > li.active > a"@,
    }
}

pub fn sel_page_current() -> (s: Selector)
    ensures
        s@ == sel_page_current_m(),
{
    let mut parts: Vec<SimpleSel> = Vec::new();
    parts.push(part_tag_class("ul", "pagination"));
    parts.push(part_tag_class("li", "active"));
    parts.push(part_tag("a"));
    let s = Selector { parts, source: "ul.pagination > li.active > a".to_owned() };
    proof {
        assert(s@.parts =~~= sel_page_current_m().parts);
        assert(s@ =~~= sel_page_current_m());
    }
    s
}

/// `ul.pagination > li:not(.disabled):not(.next) > a:not([rel])`: every
/// usable page link around the current one.
pub open spec fn sel_page_links_m() -> SelM {
    SelM {
        parts: seq![
            part_m(Some("ul"@), seq!["pagination"@], None, Seq::empty(), Seq::empty()),
            part_m(Some("li"@), Seq::empty(), None, seq!["disabled"@, "next"@], Seq::empty()),
            part_m(Some("a"@), Seq::empty(), None, Seq::empty(), seq!["rel"@]),
        ],
        source: "ul.pagination > li:not(.disabled):not(.next) > a:not([rel])"@,
    }
}

pub fn sel_page_links() -> (s: Selector)
    ensures
        s@ == sel_page_links_m(),
{
    let mut parts: Vec<SimpleSel> = Vec::new();
    parts.push(part_tag_class("ul", "pagination"));
    parts.push(part_tag_not_classes2("li", "disabled", "next"));
    parts.push(part_tag_not_attr("a", "rel"));
    let s = Selector {
        parts,
        source: "ul.pagination > li:not(.disabled):not(.next) > a:not([rel])".to_owned(),
    };
    proof {
        assert(s@.parts =~~= sel_page_links_m().parts);
        assert(s@ =~~= sel_page_links_m());
    }
    s
}

} // verus!

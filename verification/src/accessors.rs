//! Tree-query helpers: find a node, read its text or an attribute, resolve
//! an href — each with the error the pipeline reports when it fails.
//!
//! Every helper has a specification mirror (`spec_*`) over the mathematical
//! models; the executable functions return exactly what the mirrors say.

use vstd::prelude::*;

use crate::dom::{
    attr_lookup, node_at, path_to, spec_attr_lookup, spec_node_at, spec_path_labels, DomNode,
};
use crate::errors::{ErrM, ParseError};
use crate::num::{parse_u32, spec_parse_u32, IntParseError};
use crate::selector::{select_first, spec_select_first, SelM, Selector};
use crate::strutil::{join_strings, spec_join};
use crate::urls::{resolve_href, url_join, url_norm};

verus! {

/// The diagnostic path of the node at `q`: its ancestor chain's labels
/// joined with `/`.
pub open spec fn spec_path_str(d: DomNode, q: Seq<usize>) -> Seq<char> {
    spec_join(spec_path_labels(d, q), "/"@)
}

pub fn path_str(d: &DomNode, q: &Vec<usize>) -> (r: String)
    ensures
        r@ == spec_path_str(*d, q@),
{
    let labels = path_to(d, q);
    proof {
        assert(labels.deep_view() == spec_path_labels(*d, q@));
    }
    join_strings(&labels, "/")
}

/// First match of `sel` under `start`, or a `SelectorNotFound` error.
pub open spec fn spec_sel(d: DomNode, start: Seq<usize>, sel: SelM) -> Result<Seq<usize>, ErrM> {
    match spec_select_first(d, start, sel) {
        Some(q) => Ok(q),
        None => Err(
            ErrM::SelectorNotFound { selector: sel.source, path: spec_path_str(d, start) },
        ),
    }
}

pub fn select(d: &DomNode, start: &Vec<usize>, sel: &Selector) -> (r: Result<
    Vec<usize>,
    ParseError,
>)
    ensures
        match r {
            Ok(q) => spec_sel(*d, start@, sel@) == Ok::<Seq<usize>, ErrM>(q@),
            Err(e) => spec_sel(*d, start@, sel@) == Err::<Seq<usize>, ErrM>(e@),
        },
{
    match select_first(d, start, sel) {
        Some(q) => Ok(q),
        None => Err(
            ParseError::SelectorNotFound {
                selector: sel.source.clone(),
                path: path_str(d, start),
            },
        ),
    }
}

/// The parent of the first match.
pub open spec fn spec_sel_parent(d: DomNode, start: Seq<usize>, sel: SelM) -> Result<
    Seq<usize>,
    ErrM,
> {
    match spec_sel(d, start, sel) {
        Ok(q) => if q.len() > 0 {
            Ok(q.drop_last())
        } else {
            Err(ErrM::SelectorNotFound { selector: sel.source, path: spec_path_str(d, start) })
        },
        Err(e) => Err(e),
    }
}

pub fn select_parent(d: &DomNode, start: &Vec<usize>, sel: &Selector) -> (r: Result<
    Vec<usize>,
    ParseError,
>)
    ensures
        match r {
            Ok(q) => spec_sel_parent(*d, start@, sel@) == Ok::<Seq<usize>, ErrM>(q@),
            Err(e) => spec_sel_parent(*d, start@, sel@) == Err::<Seq<usize>, ErrM>(e@),
        },
{
    match select(d, start, sel) {
        Ok(mut q) => {
            if q.len() > 0 {
                let ghost before = q@;
                q.pop();
                proof {
                    assert(q@ =~= before.drop_last());
                }
                Ok(q)
            } else {
                Err(
                    ParseError::SelectorNotFound {
                        selector: sel.source.clone(),
                        path: path_str(d, start),
                    },
                )
            }
        },
        Err(e) => Err(e),
    }
}

/// The text contents of the first match.
pub open spec fn spec_sel_text(d: DomNode, start: Seq<usize>, sel: SelM) -> Result<
    Seq<char>,
    ErrM,
> {
    match spec_sel(d, start, sel) {
        Ok(q) => Ok(
            match spec_node_at(d, q) {
                Some(n) => n.spec_text_contents(),
                None => Seq::empty(),
            },
        ),
        Err(e) => Err(e),
    }
}

pub fn select_text(d: &DomNode, start: &Vec<usize>, sel: &Selector) -> (r: Result<
    String,
    ParseError,
>)
    ensures
        match r {
            Ok(t) => spec_sel_text(*d, start@, sel@) == Ok::<Seq<char>, ErrM>(t@),
            Err(e) => spec_sel_text(*d, start@, sel@) == Err::<Seq<char>, ErrM>(e@),
        },
{
    match select(d, start, sel) {
        Ok(q) => match node_at(d, &q) {
            Some(n) => Ok(n.text_contents()),
            None => Ok(String::new()),
        },
        Err(e) => Err(e),
    }
}

/// The text of the first match parsed as `u32`.
pub open spec fn spec_sel_u32(d: DomNode, start: Seq<usize>, sel: SelM) -> Result<u32, ErrM> {
    match spec_sel_text(d, start, sel) {
        Ok(t) => match spec_parse_u32(t) {
            Ok(v) => Ok(v),
            Err(ie) => Err(
                ErrM::FieldParseError { field: sel.source, raw: t, cause: ie.spec_message() },
            ),
        },
        Err(e) => Err(e),
    }
}

pub fn select_u32(d: &DomNode, start: &Vec<usize>, sel: &Selector) -> (r: Result<u32, ParseError>)
    ensures
        match r {
            Ok(v) => spec_sel_u32(*d, start@, sel@) == Ok::<u32, ErrM>(v),
            Err(e) => spec_sel_u32(*d, start@, sel@) == Err::<u32, ErrM>(e@),
        },
{
    match select_text(d, start, sel) {
        Ok(t) => match parse_u32(t.as_str()) {
            Ok(v) => Ok(v),
            Err(ie) => Err(
                ParseError::FieldParseError {
                    field: sel.source.clone(),
                    raw: t,
                    cause: ie.message(),
                },
            ),
        },
        Err(e) => Err(e),
    }
}

/// The value of attribute `name` on the node at `q`, if the node is an
/// element; an element without the attribute yields `Ok(None)`.
pub open spec fn spec_try_attr(d: DomNode, q: Seq<usize>, name: Seq<char>) -> Result<
    Option<Seq<char>>,
    ErrM,
> {
    match spec_node_at(d, q) {
        Some(node) => match node {
            DomNode::Element { tag, attrs, children } => Ok(
                spec_attr_lookup(attrs.deep_view(), name),
            ),
            _ => Err(ErrM::AttributeMissing { name: name, path: spec_path_str(d, q) }),
        },
        None => Err(ErrM::AttributeMissing { name: name, path: spec_path_str(d, q) }),
    }
}

pub fn try_attr(d: &DomNode, q: &Vec<usize>, name: &str) -> (r: Result<Option<String>, ParseError>)
    ensures
        match r {
            Ok(v) => spec_try_attr(*d, q@, name@) == Ok::<Option<Seq<char>>, ErrM>(
                match v {
                    Some(s) => Some(s@),
                    None => None,
                },
            ),
            Err(e) => spec_try_attr(*d, q@, name@) == Err::<Option<Seq<char>>, ErrM>(e@),
        },
{
    match node_at(d, q) {
        Some(node) => match node {
            DomNode::Element { tag, attrs, children } => match attr_lookup(attrs, name) {
                Some(v) => Ok(Some(v.clone())),
                None => Ok(None),
            },
            _ => Err(
                ParseError::AttributeMissing { name: name.to_owned(), path: path_str(d, q) },
            ),
        },
        None => Err(ParseError::AttributeMissing { name: name.to_owned(), path: path_str(d, q) }),
    }
}

/// Like [`spec_try_attr`], but a missing attribute is an error.
pub open spec fn spec_attr(d: DomNode, q: Seq<usize>, name: Seq<char>) -> Result<Seq<char>, ErrM> {
    match spec_try_attr(d, q, name) {
        Ok(Some(v)) => Ok(v),
        Ok(None) => Err(ErrM::AttributeMissing { name: name, path: spec_path_str(d, q) }),
        Err(e) => Err(e),
    }
}

pub fn attr(d: &DomNode, q: &Vec<usize>, name: &str) -> (r: Result<String, ParseError>)
    ensures
        match r {
            Ok(v) => spec_attr(*d, q@, name@) == Ok::<Seq<char>, ErrM>(v@),
            Err(e) => spec_attr(*d, q@, name@) == Err::<Seq<char>, ErrM>(e@),
        },
{
    match try_attr(d, q, name) {
        Ok(Some(v)) => Ok(v),
        Ok(None) => Err(
            ParseError::AttributeMissing { name: name.to_owned(), path: path_str(d, q) },
        ),
        Err(e) => Err(e),
    }
}

/// The node's `href` resolved against the base URL; a node without an
/// `href` resolves to the (normalized) base URL itself.
pub open spec fn spec_href(d: DomNode, q: Seq<usize>, base: Seq<char>, norm: Seq<char>) -> Result<
    Seq<char>,
    ErrM,
> {
    match spec_try_attr(d, q, "href"@) {
        Ok(Some(h)) => match url_join(base, h) {
            Ok(u) => Ok(u),
            Err(c) => Err(ErrM::UrlJoinError { raw: h, cause: c }),
        },
        Ok(None) => Ok(norm),
        Err(e) => Err(e),
    }
}

pub fn href(d: &DomNode, q: &Vec<usize>, base: &str, norm: &str) -> (r: Result<String, ParseError>)
    ensures
        match r {
            Ok(u) => spec_href(*d, q@, base@, norm@) == Ok::<Seq<char>, ErrM>(u@),
            Err(e) => spec_href(*d, q@, base@, norm@) == Err::<Seq<char>, ErrM>(e@),
        },
{
    match try_attr(d, q, "href") {
        Ok(Some(h)) => match resolve_href(base, h.as_str()) {
            Ok(u) => Ok(u),
            Err(c) => Err(ParseError::UrlJoinError { raw: h, cause: c }),
        },
        Ok(None) => Ok(norm.to_owned()),
        Err(e) => Err(e),
    }
}

/// First match's parent's `href`, resolved.
pub open spec fn spec_sel_parent_href(
    d: DomNode,
    start: Seq<usize>,
    sel: SelM,
    base: Seq<char>,
    norm: Seq<char>,
) -> Result<Seq<char>, ErrM> {
    match spec_sel_parent(d, start, sel) {
        Ok(q) => spec_href(d, q, base, norm),
        Err(e) => Err(e),
    }
}

pub fn select_parent_href(
    d: &DomNode,
    start: &Vec<usize>,
    sel: &Selector,
    base: &str,
    norm: &str,
) -> (r: Result<String, ParseError>)
    ensures
        match r {
            Ok(u) => spec_sel_parent_href(*d, start@, sel@, base@, norm@) == Ok::<Seq<char>, ErrM>(
                u@,
            ),
            Err(e) => spec_sel_parent_href(*d, start@, sel@, base@, norm@) == Err::<
                Seq<char>,
                ErrM,
            >(e@),
        },
{
    match select_parent(d, start, sel) {
        Ok(q) => href(d, &q, base, norm),
        Err(e) => Err(e),
    }
}

} // verus!

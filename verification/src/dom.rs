//! The document tree the extraction pipeline works on.
//!
//! HTML parsing itself is an external capability: `dom_from_html` hands the
//! text to kuchiki and converts the resulting tree, node for node, into
//! [`DomNode`], a plain recursive datatype holding exactly what the pipeline
//! reads (tag names, attributes, children, text).  Everything that walks or
//! queries the tree is verified code over this type.
//!
//! Nodes are addressed by *paths*: the sequence of child indices from the
//! document root down to the node.

use vstd::prelude::*;

use crate::strutil::str_eq;
use kuchiki::traits::TendrilSink;
use kuchiki::NodeData;

verus! {

/// One node of the parsed document.
#[derive(Debug)]
pub enum DomNode {
    /// The document root.
    Document { children: Vec<DomNode> },
    /// An element with its tag name, attributes and children.
    Element { tag: String, attrs: Vec<(String, String)>, children: Vec<DomNode> },
    /// A text node.
    Text { text: String },
    /// Any other node kind (comment, doctype, ...), kept only so that
    /// diagnostic paths can name it.
    Other { label: String },
}

/// Names the tree kuchiki builds from `html`: HTML parsing is deterministic,
/// so the result is a function of the text alone.
pub uninterp spec fn dom_of(html: Seq<char>) -> DomNode;

impl DomNode {
    /// The node's children; leaves have none.
    pub open spec fn spec_children(self) -> Seq<DomNode> {
        match self {
            DomNode::Document { children } => children@,
            DomNode::Element { tag, attrs, children } => children@,
            _ => Seq::empty(),
        }
    }

    pub open spec fn is_element(self) -> bool {
        self is Element
    }

    /// Concatenation of every text node in the subtree, in document order.
    pub open spec fn spec_text_contents(self) -> Seq<char>
        decreases self,
    {
        match self {
            DomNode::Text { text } => text@,
            DomNode::Document { children } => Self::spec_texts(children@),
            DomNode::Element { tag, attrs, children } => Self::spec_texts(children@),
            DomNode::Other { label } => Seq::empty(),
        }
    }

    pub open spec fn spec_texts(nodes: Seq<DomNode>) -> Seq<char>
        decreases nodes,
    {
        if nodes.len() == 0 {
            Seq::empty()
        } else {
            nodes[0].spec_text_contents() + Self::spec_texts(nodes.drop_first())
        }
    }

    /// Returns the concatenation of all text in this subtree.
    pub fn text_contents(&self) -> (r: String)
        ensures
            r@ == self.spec_text_contents(),
    {
        let mut out = String::new();
        self.append_text(&mut out);
        out
    }

    fn append_text(&self, out: &mut String)
        ensures
            final(out)@ == old(out)@ + self.spec_text_contents(),
        decreases self,
    {
        match self {
            DomNode::Text { text } => {
                out.append(text.as_str());
            },
            DomNode::Document { children } => {
                Self::append_texts(children, out);
            },
            DomNode::Element { tag, attrs, children } => {
                Self::append_texts(children, out);
            },
            DomNode::Other { label } => {
                proof {
                    assert(old(out)@ + Seq::<char>::empty() =~= old(out)@);
                }
            },
        }
    }

    fn append_texts(children: &Vec<DomNode>, out: &mut String)
        ensures
            final(out)@ == old(out)@ + Self::spec_texts(children@),
        decreases children@,
    {
        let ghost full = children@;
        let mut i: usize = 0;
        proof {
            assert(full.skip(0) =~= full);
        }
        while i < children.len()
            invariant
                i <= children@.len(),
                children@ == full,
                old(out)@ + Self::spec_texts(full) == out@ + Self::spec_texts(
                    full.skip(i as int),
                ),
            decreases children@.len() - i,
        {
            proof {
                let tail = full.skip(i as int);
                assert(tail[0] == full[i as int]);
                assert(tail.drop_first() =~= full.skip(i as int + 1));
            }
            let ghost before = out@;
            children[i].append_text(out);
            proof {
                assert(before + (full[i as int].spec_text_contents() + Self::spec_texts(
                    full.skip(i as int + 1),
                )) =~= out@ + Self::spec_texts(full.skip(i as int + 1)));
            }
            i = i + 1;
        }
        proof {
            assert(Self::spec_texts(full.skip(full.len() as int)) =~= Seq::<char>::empty());
            assert(out@ + Seq::<char>::empty() =~= out@);
        }
    }

    /// The short label a node contributes to a diagnostic path.
    pub open spec fn spec_label(self) -> Seq<char> {
        match self {
            DomNode::Document { children } => "root"@,
            DomNode::Element { tag, attrs, children } => {
                match spec_attr_lookup(attrs.deep_view(), "class"@) {
                    Some(c) => tag@ + " ("@ + c + ")"@,
                    None => tag@,
                }
            },
            DomNode::Text { text } => "text"@,
            DomNode::Other { label } => label@,
        }
    }

    /// Builds the label of one node.
    pub fn label(&self) -> (r: String)
        ensures
            r@ == self.spec_label(),
    {
        match self {
            DomNode::Document { children } => "root".to_owned(),
            DomNode::Element { tag, attrs, children } => {
                match attr_lookup(attrs, "class") {
                    Some(c) => {
                        let mut s = tag.clone();
                        s.append(" (");
                        s.append(c.as_str());
                        s.append(")");
                        s
                    },
                    None => tag.clone(),
                }
            },
            DomNode::Text { text } => "text".to_owned(),
            DomNode::Other { label } => label.clone(),
        }
    }
}

/// First attribute value stored under `name`, if any.
pub open spec fn spec_attr_lookup(attrs: Seq<(Seq<char>, Seq<char>)>, name: Seq<char>) -> Option<
    Seq<char>,
>
    decreases attrs.len(),
{
    if attrs.len() == 0 {
        None
    } else if attrs[0].0 == name {
        Some(attrs[0].1)
    } else {
        spec_attr_lookup(attrs.drop_first(), name)
    }
}

/// Looks up an attribute by name in an element's attribute list.
pub fn attr_lookup<'a>(attrs: &'a Vec<(String, String)>, name: &str) -> (r: Option<&'a String>)
    ensures
        match r {
            Some(v) => spec_attr_lookup(attrs.deep_view(), name@) == Some(v@),
            None => spec_attr_lookup(attrs.deep_view(), name@) is None,
        },
{
    let ghost all = attrs.deep_view();
    let mut i: usize = 0;
    proof {
        assert(all.skip(0) =~= all);
    }
    while i < attrs.len()
        invariant
            i <= attrs@.len(),
            all == attrs.deep_view(),
            spec_attr_lookup(all, name@) == spec_attr_lookup(all.skip(i as int), name@),
        decreases attrs@.len() - i,
    {
        proof {
            let tail = all.skip(i as int);
            assert(tail[0] == all[i as int]);
            assert(all[i as int].0 == attrs@[i as int].0@);
            assert(all[i as int].1 == attrs@[i as int].1@);
            assert(tail.drop_first() =~= all.skip(i as int + 1));
        }
        if str_eq(attrs[i].0.as_str(), name) {
            return Some(&attrs[i].1);
        }
        i = i + 1;
    }
    proof {
        assert(all.skip(all.len() as int) =~= Seq::<(Seq<char>, Seq<char>)>::empty());
    }
    None
}

/// The node a path leads to, if the path is valid.
pub open spec fn spec_node_at(d: DomNode, q: Seq<usize>) -> Option<DomNode>
    decreases q.len(),
{
    if q.len() == 0 {
        Some(d)
    } else {
        let ks = d.spec_children();
        if (q[0] as int) < ks.len() {
            spec_node_at(ks[q[0] as int], q.drop_first())
        } else {
            None
        }
    }
}

/// Walks a path down from `d`.
pub fn node_at<'a>(d: &'a DomNode, q: &Vec<usize>) -> (r: Option<&'a DomNode>)
    ensures
        match r {
            Some(n) => spec_node_at(*d, q@) == Some(*n),
            None => spec_node_at(*d, q@) is None,
        },
{
    let mut cur: &DomNode = d;
    let mut i: usize = 0;
    proof {
        assert(q@.skip(0) =~= q@);
    }
    while i < q.len()
        invariant
            i <= q@.len(),
            spec_node_at(*d, q@) == spec_node_at(*cur, q@.skip(i as int)),
        decreases q@.len() - i,
    {
        proof {
            let tail = q@.skip(i as int);
            assert(tail[0] == q@[i as int]);
            assert(tail.drop_first() =~= q@.skip(i as int + 1));
        }
        let idx = q[i];
        match cur {
            DomNode::Document { children } => {
                if idx < children.len() {
                    cur = &children[idx];
                } else {
                    return None;
                }
            },
            DomNode::Element { tag, attrs, children } => {
                if idx < children.len() {
                    cur = &children[idx];
                } else {
                    return None;
                }
            },
            _ => {
                return None;
            },
        }
        i = i + 1;
    }
    proof {
        assert(q@.skip(q@.len() as int) =~= Seq::<usize>::empty());
    }
    Some(cur)
}

/// Walks only the first `m` steps of a path down from `d`.
pub fn node_at_upto<'a>(d: &'a DomNode, q: &Vec<usize>, m: usize) -> (r: Option<&'a DomNode>)
    requires
        m <= q@.len(),
    ensures
        match r {
            Some(n) => spec_node_at(*d, q@.take(m as int)) == Some(*n),
            None => spec_node_at(*d, q@.take(m as int)) is None,
        },
{
    let ghost path = q@.take(m as int);
    let mut cur: &DomNode = d;
    let mut i: usize = 0;
    proof {
        assert(path.skip(0) =~= path);
    }
    while i < m
        invariant
            i <= m <= q@.len(),
            path == q@.take(m as int),
            spec_node_at(*d, path) == spec_node_at(*cur, path.skip(i as int)),
        decreases m - i,
    {
        proof {
            let tail = path.skip(i as int);
            assert(tail[0] == q@[i as int]);
            assert(tail.drop_first() =~= path.skip(i as int + 1));
        }
        let idx = q[i];
        match cur {
            DomNode::Document { children } => {
                if idx < children.len() {
                    cur = &children[idx];
                } else {
                    return None;
                }
            },
            DomNode::Element { tag, attrs, children } => {
                if idx < children.len() {
                    cur = &children[idx];
                } else {
                    return None;
                }
            },
            _ => {
                return None;
            },
        }
        i = i + 1;
    }
    proof {
        assert(path.skip(path.len() as int) =~= Seq::<usize>::empty());
    }
    Some(cur)
}

/// The labels of every node along a path, root first.
pub open spec fn spec_path_labels(d: DomNode, q: Seq<usize>) -> Seq<Seq<char>>
    decreases q.len(),
{
    if q.len() == 0 {
        seq![d.spec_label()]
    } else {
        let ks = d.spec_children();
        if (q[0] as int) < ks.len() {
            seq![d.spec_label()] + spec_path_labels(ks[q[0] as int], q.drop_first())
        } else {
            seq![d.spec_label()]
        }
    }
}

/// The ancestor chain of the node at `q`, as diagnostic labels from the
/// root down to the node itself.
pub fn path_to(d: &DomNode, q: &Vec<usize>) -> (r: Vec<String>)
    ensures
        r.deep_view() == spec_path_labels(*d, q@),
{
    let mut out: Vec<String> = Vec::new();
    path_to_rec(d, q, 0, &mut out);
    proof {
        assert(q@.skip(0) =~= q@);
        assert(Seq::<Seq<char>>::empty() + spec_path_labels(*d, q@) =~= spec_path_labels(*d, q@));
    }
    out
}

fn path_to_rec(d: &DomNode, q: &Vec<usize>, i: usize, out: &mut Vec<String>)
    requires
        i <= q@.len(),
    ensures
        final(out).deep_view() == old(out).deep_view() + spec_path_labels(*d, q@.skip(i as int)),
    decreases q@.len() - i,
{
    let ghost tail = q@.skip(i as int);
    let ghost before = out.deep_view();
    out.push(d.label());
    proof {
        assert(out.deep_view() =~= before.push(d.spec_label()));
    }
    if i < q.len() {
        proof {
            assert(tail[0] == q@[i as int]);
            assert(tail.drop_first() =~= q@.skip(i as int + 1));
        }
        let idx = q[i];
        let step: Option<&DomNode> = match d {
            DomNode::Document { children } => {
                if idx < children.len() {
                    Some(&children[idx])
                } else {
                    None
                }
            },
            DomNode::Element { tag, attrs, children } => {
                if idx < children.len() {
                    Some(&children[idx])
                } else {
                    None
                }
            },
            _ => { None },
        };
        match step {
            Some(child) => {
                let ghost mid = out.deep_view();
                path_to_rec(child, q, i + 1, out);
                proof {
                    assert(mid =~= before + seq![d.spec_label()]);
                    assert((before + seq![d.spec_label()]) + spec_path_labels(
                        *child,
                        q@.skip(i as int + 1),
                    ) =~= before + (seq![d.spec_label()] + spec_path_labels(
                        *child,
                        q@.skip(i as int + 1),
                    )));
                }
            },
            None => {
                proof {
                    assert(before.push(d.spec_label()) =~= before + seq![d.spec_label()]);
                }
            },
        }
    } else {
        proof {
            assert(before.push(d.spec_label()) =~= before + seq![d.spec_label()]);
        }
    }
}

#[verifier::external_type_specification]
#[verifier::external_body]
pub struct ExNodeRef(kuchiki::NodeRef);

/// Relies on kuchiki's `parse_html` (html5ever): building a DOM from HTML
/// text is deterministic, so the converted tree is the function `dom_of` of
/// the text alone.
#[verifier::external_body]
pub fn dom_from_html(html: &str) -> (r: DomNode)
    ensures
        r == dom_of(html@),
{
    node_to_dom(&kuchiki::parse_html().one(html))
}

/// Relies on kuchiki's `NodeRef` accessors (`data`, `children`) and on its
/// attribute map being ordered (a `BTreeMap`): converts one kuchiki node and
/// its children, field for field.  Called only from `dom_from_html`, which
/// carries the contract.
#[verifier::external_body]
fn node_to_dom(n: &kuchiki::NodeRef) -> DomNode {
    let kids = |n: &kuchiki::NodeRef| n.children().map(|c| node_to_dom(&c)).collect();
    match n.data() {
        NodeData::Document(_) => DomNode::Document { children: kids(n) },
        NodeData::Element(e) => DomNode::Element {
            tag: e.name.local.to_string(),
            attrs: e.attributes.borrow().map.iter().map(
                |(k, a)| (k.local.to_string(), a.value.clone()),
            ).collect(),
            children: kids(n),
        },
        NodeData::Text(t) => DomNode::Text { text: t.borrow().clone() },
        _ => DomNode::Other { label: "other".to_owned() },
    }
}

} // verus!

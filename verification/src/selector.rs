//! A small selector engine over [`DomNode`] trees.
//!
//! The listing schema only ever needs a fixed, small selector vocabulary:
//! a tag name, required classes, `:nth-child(k)`, `:not(.class)`,
//! `:not([attr])`, and the child combinator between parts.  Selectors are
//! built structurally (no string grammar); the original selector text is
//! carried along purely for diagnostics.
//!
//! A query starts at a node and considers that node and all its
//! descendants, in document order, exactly as a CSS query over a subtree
//! would.  Matches are returned as paths from the *document root*, so the
//! ancestor context (for the child combinator and `nth-child`) is always
//! available.

use vstd::prelude::*;

use crate::dom::{node_at, node_at_upto, spec_attr_lookup, spec_node_at, DomNode, attr_lookup};
use crate::strutil::{
    is_ascii_space, is_space_char, lemma_skip_spaces_all, lemma_token_end_all, skip_spaces,
    spec_skip_spaces, spec_token_end, str_eq, token_end,
};

verus! {

/// One compound selector: every listed condition must hold of the element.
#[derive(Debug)]
pub struct SimpleSel {
    /// Required tag name, if any.
    pub tag: Option<String>,
    /// Classes the element must carry.
    pub classes: Vec<String>,
    /// Required 1-based position among the parent's element children.
    pub nth_child: Option<usize>,
    /// Classes the element must not carry.
    pub not_classes: Vec<String>,
    /// Attributes the element must not have.
    pub not_attrs: Vec<String>,
}

/// A chain of compound selectors joined by the child combinator, plus the
/// selector text it was built from (used only in error messages).
#[derive(Debug)]
pub struct Selector {
    pub parts: Vec<SimpleSel>,
    pub source: String,
}

/// Mathematical model of a [`SimpleSel`].
#[verifier::ext_equal]
pub struct SimpleSelM {
    pub tag: Option<Seq<char>>,
    pub classes: Seq<Seq<char>>,
    pub nth_child: Option<int>,
    pub not_classes: Seq<Seq<char>>,
    pub not_attrs: Seq<Seq<char>>,
}

/// Mathematical model of a [`Selector`].
#[verifier::ext_equal]
pub struct SelM {
    pub parts: Seq<SimpleSelM>,
    pub source: Seq<char>,
}

impl View for SimpleSel {
    type V = SimpleSelM;

    open spec fn view(&self) -> SimpleSelM {
        SimpleSelM {
            tag: match self.tag {
                Some(t) => Some(t@),
                None => None,
            },
            classes: self.classes.deep_view(),
            nth_child: match self.nth_child {
                Some(n) => Some(n as int),
                None => None,
            },
            not_classes: self.not_classes.deep_view(),
            not_attrs: self.not_attrs.deep_view(),
        }
    }
}

impl DeepView for SimpleSel {
    type V = SimpleSelM;

    open spec fn deep_view(&self) -> SimpleSelM {
        self.view()
    }
}

impl View for Selector {
    type V = SelM;

    open spec fn view(&self) -> SelM {
        SelM { parts: self.parts.deep_view(), source: self.source@ }
    }
}

/// A maximal whitespace-delimited run of `v` starting at `a` spells `cls`.
pub open spec fn class_token_at(v: Seq<char>, cls: Seq<char>, a: int) -> bool {
    &&& 0 <= a
    &&& a + cls.len() <= v.len()
    &&& v.subrange(a, a + cls.len()) == cls
    &&& (a == 0 || is_ascii_space(v[a - 1]))
    &&& (a + cls.len() == v.len() || is_ascii_space(v[a + cls.len()]))
}

/// Whether the class attribute value `v`, split on whitespace, contains the
/// class `cls` (which itself must be a non-empty, space-free token).
pub open spec fn spec_has_class(v: Seq<char>, cls: Seq<char>) -> bool {
    &&& cls.len() > 0
    &&& (forall|j: int| 0 <= j < cls.len() ==> !is_ascii_space(#[trigger] cls[j]))
    &&& exists|a: int| class_token_at(v, cls, a)
}

/// Splits `v` on whitespace and looks for a token equal to `cls`.
#[verifier::loop_isolation(false)]
pub fn has_class(v: &str, cls: &str) -> (r: bool)
    ensures
        r == spec_has_class(v@, cls@),
{
    let n = v.unicode_len();
    let cn = cls.unicode_len();
    if cn == 0 {
        return false;
    }
    let mut j: usize = 0;
    while j < cn
        invariant
            j <= cn,
            forall|x: int| 0 <= x < j ==> !is_ascii_space(#[trigger] cls@[x]),
        decreases cn - j,
    {
        if is_space_char(cls.get_char(j)) {
            return false;
        }
        j = j + 1;
    }
    let mut i: usize = 0;
    while i < n
        invariant
            i <= n,
            i == 0 || i == n || is_ascii_space(v@[i as int]),
            forall|a: int| class_token_at(v@, cls@, a) ==> a >= i,
        decreases n - i,
    {
        let a = skip_spaces(v, i, n);
        proof {
            lemma_skip_spaces_all(v@, i as int);
            assert forall|x: int| class_token_at(v@, cls@, x) implies x >= a by {
                if x < a {
                    assert(x >= i);
                    assert(is_ascii_space(v@[x]));
                    assert(v@.subrange(x, x + cls@.len())[0] == v@[x]);
                    assert(cls@[0] == v@[x]);
                }
            }
        }
        if a >= n {
            proof {
                assert forall|x: int| !class_token_at(v@, cls@, x) by {
                    if class_token_at(v@, cls@, x) {
                        assert(x + cls@.len() <= n);
                        assert(x >= a);
                    }
                }
            }
            return false;
        }
        let b = token_end(v, a, n);
        proof {
            lemma_token_end_all(v@, a as int);
        }
        if b - a == cn {
            let tok = v.substring_char(a, b);
            if str_eq(tok, cls) {
                proof {
                    assert(class_token_at(v@, cls@, a as int)) by {
                        if a > 0 {
                            if a == i {
                                assert(i > 0 && i < n);
                                assert(is_ascii_space(v@[a as int]));
                                assert(v@.subrange(a as int, a + cls@.len())[0] == v@[a as int]);
                                assert(!is_ascii_space(cls@[0]));
                                assert(false);
                            } else {
                                assert(is_ascii_space(v@[a - 1]));
                            }
                        }
                    }
                }
                return true;
            }
        }
        proof {
            assert forall|x: int| class_token_at(v@, cls@, x) implies x >= b by {
                if x < b {
                    assert(x >= a);
                    if x == a {
                        if cls@.len() < b - a {
                            assert(is_ascii_space(v@[a + cls@.len()]));
                            assert(a <= a + cls@.len() < b);
                            assert(false);
                        } else if cls@.len() == b - a {
                            assert(v@.subrange(a as int, b as int) == cls@);
                            assert(false);
                        } else {
                            if b < n {
                                assert(is_ascii_space(v@[b as int]));
                                assert(v@.subrange(x, x + cls@.len())[b - x] == v@[b as int]);
                                assert(!is_ascii_space(cls@[b - x]));
                                assert(false);
                            } else {
                                assert(x + cls@.len() > n);
                                assert(false);
                            }
                        }
                    } else {
                        assert(a < x < b);
                        assert(!is_ascii_space(v@[x - 1]));
                        assert(false);
                    }
                }
            }
        }
        i = b;
    }
    proof {
        assert forall|x: int| !class_token_at(v@, cls@, x) by {
            if class_token_at(v@, cls@, x) {
                assert(x + cls@.len() <= n);
                assert(x >= i);
            }
        }
    }
    false
}

/// Number of element nodes among the first `upto` entries of `ns`.
pub open spec fn count_elems(ns: Seq<DomNode>, upto: int) -> int
    decreases upto,
{
    if upto <= 0 {
        0
    } else {
        count_elems(ns, upto - 1) + if upto - 1 < ns.len() && ns[upto - 1].is_element() {
            1int
        } else {
            0int
        }
    }
}

/// The 1-based position of the node at `q` among its parent's element
/// children (0 when the path has no valid parent).
pub open spec fn spec_nth_index(d: DomNode, q: Seq<usize>) -> int {
    match spec_node_at(d, q.drop_last()) {
        Some(par) => count_elems(par.spec_children(), q.last() as int) + 1,
        None => 0,
    }
}

pub open spec fn elem_has_class(attrs: Seq<(Seq<char>, Seq<char>)>, cls: Seq<char>) -> bool {
    match spec_attr_lookup(attrs, "class"@) {
        Some(v) => spec_has_class(v, cls),
        None => false,
    }
}

/// Whether the node at `q` is an element satisfying every condition of `p`.
pub open spec fn spec_elem_matches(d: DomNode, q: Seq<usize>, p: SimpleSelM) -> bool {
    match spec_node_at(d, q) {
        Some(node) => match node {
            DomNode::Element { tag, attrs, children } => {
                &&& (match p.tag {
                    Some(t) => tag@ == t,
                    None => true,
                })
                &&& (forall|i: int|
                    0 <= i < p.classes.len() ==> elem_has_class(
                        attrs.deep_view(),
                        #[trigger] p.classes[i],
                    ))
                &&& (forall|i: int|
                    0 <= i < p.not_classes.len() ==> !elem_has_class(
                        attrs.deep_view(),
                        #[trigger] p.not_classes[i],
                    ))
                &&& (forall|i: int|
                    0 <= i < p.not_attrs.len() ==> spec_attr_lookup(
                        attrs.deep_view(),
                        #[trigger] p.not_attrs[i],
                    ) is None)
                &&& (match p.nth_child {
                    Some(k) => q.len() > 0 && spec_nth_index(d, q) == k,
                    None => true,
                })
            },
            _ => false,
        },
        None => false,
    }
}

/// The chain `parts` matches ending at `q`: the last part matches the node
/// at `q`, the one before it the node's parent, and so on.
pub open spec fn spec_chain_matches(d: DomNode, q: Seq<usize>, parts: Seq<SimpleSelM>) -> bool
    decreases parts.len(),
{
    if parts.len() == 0 {
        true
    } else {
        &&& spec_elem_matches(d, q, parts.last())
        &&& (parts.len() == 1 || (q.len() > 0 && spec_chain_matches(
            d,
            q.drop_last(),
            parts.drop_last(),
        )))
    }
}

/// Whether the selector accepts the node at `q`.
pub open spec fn spec_matches_at(d: DomNode, q: Seq<usize>, sel: SelM) -> bool {
    sel.parts.len() > 0 && spec_chain_matches(d, q, sel.parts)
}

/// Every match in the subtree rooted at `n` (which sits at path `cur` in
/// `d`), including `n` itself, in document order.
pub open spec fn spec_collect(d: DomNode, n: DomNode, cur: Seq<usize>, sel: SelM) -> Seq<
    Seq<usize>,
>
    decreases n, n.spec_children().len() + 1,
{
    (if spec_matches_at(d, cur, sel) {
        seq![cur]
    } else {
        Seq::empty()
    }) + spec_collect_kids(d, n, cur, 0, sel)
}

pub open spec fn spec_collect_kids(
    d: DomNode,
    n: DomNode,
    cur: Seq<usize>,
    i: int,
    sel: SelM,
) -> Seq<Seq<usize>>
    decreases n, n.spec_children().len() - i,
{
    if i < 0 || i >= n.spec_children().len() {
        Seq::empty()
    } else {
        spec_collect(d, n.spec_children()[i], cur.push(i as usize), sel) + spec_collect_kids(
            d,
            n,
            cur,
            i + 1,
            sel,
        )
    }
}

/// All nodes the selector accepts, searching from the node at `start`.
pub open spec fn spec_select(d: DomNode, start: Seq<usize>, sel: SelM) -> Seq<Seq<usize>> {
    match spec_node_at(d, start) {
        Some(n) => spec_collect(d, n, start, sel),
        None => Seq::empty(),
    }
}

/// The first match in document order, if any.
pub open spec fn spec_select_first(d: DomNode, start: Seq<usize>, sel: SelM) -> Option<
    Seq<usize>,
> {
    let all = spec_select(d, start, sel);
    if all.len() > 0 {
        Some(all[0])
    } else {
        None
    }
}

proof fn lemma_collect_sound(d: DomNode, n: DomNode, cur: Seq<usize>, sel: SelM, k: int)
    requires
        0 <= k < spec_collect(d, n, cur, sel).len(),
    ensures
        spec_matches_at(d, spec_collect(d, n, cur, sel)[k], sel),
        cur.is_prefix_of(spec_collect(d, n, cur, sel)[k]),
    decreases n, n.spec_children().len() + 1,
{
    let hit = spec_matches_at(d, cur, sel);
    if hit && k == 0 {
        assert(spec_collect(d, n, cur, sel)[0] == cur);
        assert(cur.is_prefix_of(cur)) by {
            assert(cur.subrange(0, cur.len() as int) =~= cur);
        }
    } else {
        let off = if hit {
            1int
        } else {
            0int
        };
        assert(spec_collect(d, n, cur, sel)[k] == spec_collect_kids(d, n, cur, 0, sel)[k - off]);
        lemma_collect_kids_sound(d, n, cur, 0, sel, k - off);
    }
}

proof fn lemma_collect_kids_sound(d: DomNode, n: DomNode, cur: Seq<usize>, i: int, sel: SelM, k: int)
    requires
        0 <= k < spec_collect_kids(d, n, cur, i, sel).len(),
    ensures
        spec_matches_at(d, spec_collect_kids(d, n, cur, i, sel)[k], sel),
        cur.is_prefix_of(spec_collect_kids(d, n, cur, i, sel)[k]),
    decreases n, n.spec_children().len() - i,
{
    let child = n.spec_children()[i];
    let head = spec_collect(d, child, cur.push(i as usize), sel);
    if k < head.len() {
        assert(spec_collect_kids(d, n, cur, i, sel)[k] == head[k]);
        lemma_collect_sound(d, child, cur.push(i as usize), sel, k);
        assert(cur.push(i as usize).is_prefix_of(head[k]));
        assert(cur.is_prefix_of(head[k])) by {
            assert(cur.push(i as usize).subrange(0, cur.len() as int) =~= cur);
            assert(head[k].subrange(0, cur.len() as int) =~= cur.push(i as usize).subrange(
                0,
                cur.len() as int,
            )) by {
                assert(head[k].subrange(0, cur.len() as int + 1) == cur.push(i as usize));
                assert(forall|x: int|
                    0 <= x < cur.len() ==> head[k].subrange(0, cur.len() as int)[x] == #[trigger] head[k].subrange(
                        0,
                        cur.len() as int + 1,
                    )[x]);
            }
        }
    } else {
        assert(spec_collect_kids(d, n, cur, i, sel)[k] == spec_collect_kids(
            d,
            n,
            cur,
            i + 1,
            sel,
        )[k - head.len()]);
        lemma_collect_kids_sound(d, n, cur, i + 1, sel, k - head.len());
    }
}

/// Stepping one index further along a valid path lands on a child of the
/// node the shorter prefix leads to.
proof fn lemma_node_at_step(d: DomNode, cur: Seq<usize>, q: Seq<usize>)
    requires
        spec_node_at(d, q) is Some,
        cur.is_prefix_of(q),
        cur.len() < q.len(),
    ensures
        spec_node_at(d, cur) is Some,
        (q[cur.len() as int] as int) < spec_node_at(d, cur)->Some_0.spec_children().len(),
        spec_node_at(d, cur.push(q[cur.len() as int])) == Some(
            spec_node_at(d, cur)->Some_0.spec_children()[q[cur.len() as int] as int],
        ),
    decreases cur.len(),
{
    if cur.len() == 0 {
        assert(q[0] == q[cur.len() as int]);
        assert((q[0] as int) < d.spec_children().len());
        let step = cur.push(q[0]);
        assert(step[0] == q[0]);
        assert(step.drop_first() =~= Seq::<usize>::empty());
        let child = d.spec_children()[q[0] as int];
        assert(spec_node_at(child, Seq::<usize>::empty()) == Some(child));
        assert(spec_node_at(d, step) == spec_node_at(child, step.drop_first()));
    } else {
        assert(cur[0] == q[0]) by {
            assert(q.subrange(0, cur.len() as int)[0] == q[0]);
        }
        assert((q[0] as int) < d.spec_children().len());
        let c0 = d.spec_children()[q[0] as int];
        assert(spec_node_at(d, q) == spec_node_at(c0, q.drop_first()));
        assert(cur.drop_first().is_prefix_of(q.drop_first())) by {
            assert(cur.drop_first() =~= q.drop_first().subrange(0, cur.len() - 1)) by {
                assert(forall|x: int|
                    0 <= x < cur.len() - 1 ==> cur.drop_first()[x] == #[trigger] q.drop_first()[x])
                    by {
                    assert(forall|x: int|
                        0 <= x < cur.len() ==> cur[x] == #[trigger] q.subrange(
                            0,
                            cur.len() as int,
                        )[x]);
                }
            }
        }
        lemma_node_at_step(c0, cur.drop_first(), q.drop_first());
        assert(q.drop_first()[cur.len() - 1] == q[cur.len() as int]);
        let step = cur.push(q[cur.len() as int]);
        assert(step[0] == cur[0]);
        assert(step.drop_first() =~= cur.drop_first().push(q[cur.len() as int]));
        assert(spec_node_at(d, step) == spec_node_at(c0, step.drop_first()));
        assert(spec_node_at(d, cur) == spec_node_at(c0, cur.drop_first()));
    }
}

/// A path the selector accepts leads to an element, so it is valid.
proof fn lemma_matches_at_valid(d: DomNode, q: Seq<usize>, sel: SelM)
    requires
        spec_matches_at(d, q, sel),
    ensures
        spec_node_at(d, q) is Some,
{
    assert(spec_elem_matches(d, q, sel.parts.last()));
}

proof fn lemma_collect_complete(d: DomNode, n: DomNode, cur: Seq<usize>, sel: SelM, q: Seq<usize>)
    requires
        spec_node_at(d, cur) == Some(n),
        cur.is_prefix_of(q),
        spec_matches_at(d, q, sel),
    ensures
        spec_collect(d, n, cur, sel).contains(q),
    decreases q.len() - cur.len(), n.spec_children().len() + 1,
{
    if q.len() == cur.len() {
        assert(q =~= cur);
        assert(spec_collect(d, n, cur, sel)[0] == cur);
    } else {
        lemma_collect_kids_complete(d, n, cur, 0, sel, q);
        let kids = spec_collect_kids(d, n, cur, 0, sel);
        let k = choose|k: int| 0 <= k < kids.len() && kids[k] == q;
        let head = if spec_matches_at(d, cur, sel) {
            seq![cur]
        } else {
            Seq::<Seq<usize>>::empty()
        };
        assert(spec_collect(d, n, cur, sel)[head.len() + k] == q);
    }
}

proof fn lemma_collect_kids_complete(
    d: DomNode,
    n: DomNode,
    cur: Seq<usize>,
    i: int,
    sel: SelM,
    q: Seq<usize>,
)
    requires
        spec_node_at(d, cur) == Some(n),
        cur.is_prefix_of(q),
        cur.len() < q.len(),
        spec_matches_at(d, q, sel),
        0 <= i <= q[cur.len() as int] as int,
    ensures
        spec_collect_kids(d, n, cur, i, sel).contains(q),
    decreases q.len() - cur.len(), n.spec_children().len() - i,
{
    lemma_matches_at_valid(d, q, sel);
    lemma_node_at_step(d, cur, q);
    let j = q[cur.len() as int] as int;
    let step = cur.push(q[cur.len() as int]);
    let head = spec_collect(d, n.spec_children()[i], cur.push(i as usize), sel);
    if i == j {
        assert(step == cur.push(i as usize));
        assert(step.is_prefix_of(q)) by {
            assert(step =~= q.subrange(0, step.len() as int)) by {
                assert(forall|x: int|
                    0 <= x < cur.len() ==> cur[x] == #[trigger] q.subrange(
                        0,
                        cur.len() as int,
                    )[x]);
            }
        }
        lemma_collect_complete(d, n.spec_children()[j], step, sel, q);
        let k = choose|k: int| 0 <= k < head.len() && head[k] == q;
        assert(spec_collect_kids(d, n, cur, i, sel)[k] == q);
    } else {
        lemma_collect_kids_complete(d, n, cur, i + 1, sel, q);
        let rest = spec_collect_kids(d, n, cur, i + 1, sel);
        let k = choose|k: int| 0 <= k < rest.len() && rest[k] == q;
        assert(spec_collect_kids(d, n, cur, i, sel)[head.len() + k] == q);
    }
}

/// Completeness of the query: every node the selector accepts at or below
/// the (valid) start node is among the results.
pub proof fn lemma_select_complete(d: DomNode, start: Seq<usize>, sel: SelM, q: Seq<usize>)
    requires
        spec_node_at(d, start) is Some,
        start.is_prefix_of(q),
        spec_matches_at(d, q, sel),
    ensures
        spec_select(d, start, sel).contains(q),
{
    lemma_collect_complete(d, spec_node_at(d, start)->Some_0, start, sel, q);
}

/// Soundness of the query: every path `spec_select` returns designates a
/// node that the selector accepts, inside the subtree searched from
/// `start` (the start node included).
pub proof fn lemma_select_sound(d: DomNode, start: Seq<usize>, sel: SelM, k: int)
    requires
        0 <= k < spec_select(d, start, sel).len(),
    ensures
        spec_matches_at(d, spec_select(d, start, sel)[k], sel),
        start.is_prefix_of(spec_select(d, start, sel)[k]),
{
    match spec_node_at(d, start) {
        Some(n) => {
            lemma_collect_sound(d, n, start, sel, k);
        },
        None => {},
    }
}

/// Copies a path.
pub fn clone_path(v: &Vec<usize>) -> (r: Vec<usize>)
    ensures
        r@ == v@,
{
    let mut out: Vec<usize> = Vec::new();
    let mut i: usize = 0;
    while i < v.len()
        invariant
            i <= v@.len(),
            out@ == v@.subrange(0, i as int),
        decreases v@.len() - i,
    {
        out.push(v[i]);
        proof {
            assert(v@.subrange(0, i as int).push(v@[i as int]) =~= v@.subrange(0, i as int + 1));
        }
        i = i + 1;
    }
    proof {
        assert(v@.subrange(0, v@.len() as int) =~= v@);
    }
    out
}

/// Number of elements among the first `upto` children.
fn count_elems_exec(children: &Vec<DomNode>, upto: usize) -> (r: usize)
    requires
        upto <= children@.len(),
    ensures
        r == count_elems(children@, upto as int),
        r <= upto,
{
    let mut c: usize = 0;
    let mut i: usize = 0;
    while i < upto
        invariant
            i <= upto <= children@.len(),
            c == count_elems(children@, i as int),
            c <= i,
        decreases upto - i,
    {
        match &children[i] {
            DomNode::Element { tag, attrs, children: kids } => {
                c = c + 1;
            },
            _ => {},
        }
        i = i + 1;
    }
    c
}

/// Does the element at `q.take(m)` satisfy `p`?
#[verifier::loop_isolation(false)]
fn elem_matches_upto(d: &DomNode, q: &Vec<usize>, m: usize, p: &SimpleSel) -> (r: bool)
    requires
        m <= q@.len(),
    ensures
        r == spec_elem_matches(*d, q@.take(m as int), p@),
{
    let node = match node_at_upto(d, q, m) {
        Some(node) => node,
        None => {
            return false;
        },
    };
    match node {
        DomNode::Element { tag, attrs, children } => {
            match &p.tag {
                Some(t) => {
                    if !str_eq(tag.as_str(), t.as_str()) {
                        return false;
                    }
                },
                None => {},
            }
            let class_val: Option<&String> = attr_lookup(attrs, "class");
            let mut i: usize = 0;
            while i < p.classes.len()
                invariant
                    i <= p.classes@.len(),
                    forall|x: int|
                        0 <= x < i ==> elem_has_class(
                            attrs.deep_view(),
                            #[trigger] p@.classes[x],
                        ),
                decreases p.classes@.len() - i,
            {
                proof {
                    assert(p@.classes[i as int] == p.classes@[i as int]@);
                }
                let ok = match class_val {
                    Some(v) => has_class(v.as_str(), p.classes[i].as_str()),
                    None => false,
                };
                if !ok {
                    return false;
                }
                i = i + 1;
            }
            let mut i2: usize = 0;
            while i2 < p.not_classes.len()
                invariant
                    i2 <= p.not_classes@.len(),
                    forall|x: int|
                        0 <= x < i2 ==> !elem_has_class(
                            attrs.deep_view(),
                            #[trigger] p@.not_classes[x],
                        ),
                decreases p.not_classes@.len() - i2,
            {
                proof {
                    assert(p@.not_classes[i2 as int] == p.not_classes@[i2 as int]@);
                }
                let bad = match class_val {
                    Some(v) => has_class(v.as_str(), p.not_classes[i2].as_str()),
                    None => false,
                };
                if bad {
                    return false;
                }
                i2 = i2 + 1;
            }
            let mut i3: usize = 0;
            while i3 < p.not_attrs.len()
                invariant
                    i3 <= p.not_attrs@.len(),
                    forall|x: int|
                        0 <= x < i3 ==> spec_attr_lookup(
                            attrs.deep_view(),
                            #[trigger] p@.not_attrs[x],
                        ) is None,
                decreases p.not_attrs@.len() - i3,
            {
                proof {
                    assert(p@.not_attrs[i3 as int] == p.not_attrs@[i3 as int]@);
                }
                match attr_lookup(attrs, p.not_attrs[i3].as_str()) {
                    Some(_) => {
                        return false;
                    },
                    None => {},
                }
                i3 = i3 + 1;
            }
            match p.nth_child {
                Some(k) => {
                    if m == 0 {
                        return false;
                    }
                    proof {
                        assert(q@.take(m as int).drop_last() =~= q@.take(m as int - 1));
                        assert(q@.take(m as int).last() == q@[m as int - 1]);
                    }
                    let par = match node_at_upto(d, q, m - 1) {
                        Some(par) => par,
                        None => {
                            return k == 0;
                        },
                    };
                    let idx = q[m - 1];
                    let c: usize = match par {
                        DomNode::Document { children: ks } => {
                            if idx <= ks.len() {
                                count_elems_exec(ks, idx)
                            } else {
                                proof {
                                    lemma_count_elems_oob(ks@, idx as int);
                                }
                                count_elems_exec(ks, ks.len())
                            }
                        },
                        DomNode::Element { tag: t2, attrs: a2, children: ks } => {
                            if idx <= ks.len() {
                                count_elems_exec(ks, idx)
                            } else {
                                proof {
                                    lemma_count_elems_oob(ks@, idx as int);
                                }
                                count_elems_exec(ks, ks.len())
                            }
                        },
                        _ => {
                            proof {
                                lemma_count_elems_empty(idx as int);
                            }
                            0
                        },
                    };
                    if k == 0 {
                        false
                    } else {
                        c == k - 1
                    }
                },
                None => true,
            }
        },
        _ => false,
    }
}

/// Counting past the end adds nothing.
proof fn lemma_count_elems_oob(ns: Seq<DomNode>, upto: int)
    requires
        upto >= ns.len(),
    ensures
        count_elems(ns, upto) == count_elems(ns, ns.len() as int),
    decreases upto,
{
    if upto > ns.len() {
        lemma_count_elems_oob(ns, upto - 1);
    }
}

proof fn lemma_count_elems_empty(upto: int)
    ensures
        count_elems(Seq::<DomNode>::empty(), upto) == 0,
    decreases upto,
{
    if upto > 0 {
        lemma_count_elems_empty(upto - 1);
    }
}

/// Does the chain `parts.take(k)` match ending at the node `q.take(m)`?
fn chain_matches_upto(d: &DomNode, q: &Vec<usize>, m: usize, parts: &Vec<SimpleSel>, k: usize) -> (r:
    bool)
    requires
        m <= q@.len(),
        k <= parts@.len(),
    ensures
        r == spec_chain_matches(*d, q@.take(m as int), parts.deep_view().take(k as int)),
    decreases k,
{
    let ghost pk = parts.deep_view().take(k as int);
    if k == 0 {
        return true;
    }
    proof {
        assert(pk.last() == parts.deep_view()[k as int - 1]);
        assert(parts.deep_view()[k as int - 1] == parts@[k as int - 1]@);
    }
    if !elem_matches_upto(d, q, m, &parts[k - 1]) {
        return false;
    }
    if k == 1 {
        return true;
    }
    if m == 0 {
        proof {
            assert(q@.take(0).len() == 0);
        }
        return false;
    }
    proof {
        assert(q@.take(m as int).drop_last() =~= q@.take(m as int - 1));
        assert(pk.drop_last() =~= parts.deep_view().take(k as int - 1));
    }
    chain_matches_upto(d, q, m - 1, parts, k - 1)
}

/// Does the selector accept the node at `cur`?
fn matches_at(d: &DomNode, cur: &Vec<usize>, sel: &Selector) -> (r: bool)
    ensures
        r == spec_matches_at(*d, cur@, sel@),
{
    if sel.parts.len() == 0 {
        return false;
    }
    proof {
        assert(cur@.take(cur@.len() as int) =~= cur@);
        assert(sel.parts.deep_view().take(sel.parts.deep_view().len() as int)
            =~= sel.parts.deep_view());
    }
    chain_matches_upto(d, cur, cur.len(), &sel.parts, sel.parts.len())
}

/// Collects matches in the subtree of `n` (at path `cur`), appending to `out`.
#[verifier::loop_isolation(false)]
fn collect(d: &DomNode, n: &DomNode, cur: &Vec<usize>, sel: &Selector, out: &mut Vec<Vec<usize>>)
    ensures
        final(out).deep_view() == old(out).deep_view() + spec_collect(*d, *n, cur@, sel@),
    decreases *n,
{
    let ghost goal = old(out).deep_view() + spec_collect(*d, *n, cur@, sel@);
    if matches_at(d, cur, sel) {
        let ghost before = out.deep_view();
        out.push(clone_path(cur));
        proof {
            assert(out.deep_view() =~~= before.push(cur@));
            assert(before.push(cur@) =~= before + seq![cur@]);
        }
    } else {
        proof {
            assert(old(out).deep_view() + Seq::<Seq<usize>>::empty() =~= old(out).deep_view());
        }
    }
    let children: &Vec<DomNode> = match n {
        DomNode::Document { children } => children,
        DomNode::Element { tag, attrs, children } => children,
        _ => {
            proof {
                assert(n.spec_children().len() == 0);
                assert(spec_collect_kids(*d, *n, cur@, 0, sel@) =~= Seq::<Seq<usize>>::empty());
                assert(out.deep_view() + Seq::<Seq<usize>>::empty() =~= out.deep_view());
                assert(out.deep_view() =~= goal);
            }
            return ;
        },
    };
    let mut i: usize = 0;
    proof {
        assert(out.deep_view() + spec_collect_kids(*d, *n, cur@, 0, sel@) =~= goal) by {
            assert(spec_collect(*d, *n, cur@, sel@) == (if spec_matches_at(*d, cur@, sel@) {
                seq![cur@]
            } else {
                Seq::<Seq<usize>>::empty()
            }) + spec_collect_kids(*d, *n, cur@, 0, sel@));
        }
    }
    while i < children.len()
        invariant
            i <= children@.len(),
            children@ == n.spec_children(),
            goal == out.deep_view() + spec_collect_kids(*d, *n, cur@, i as int, sel@),
        decreases children@.len() - i,
    {
        let mut next = clone_path(cur);
        next.push(i);
        let ghost mid = out.deep_view();
        collect(d, &children[i], &next, sel, out);
        proof {
            assert(next@ =~= cur@.push(i as usize));
            assert(mid + (spec_collect(*d, children@[i as int], cur@.push(i as usize), sel@)
                + spec_collect_kids(*d, *n, cur@, i as int + 1, sel@)) =~= out.deep_view()
                + spec_collect_kids(*d, *n, cur@, i as int + 1, sel@));
        }
        i = i + 1;
    }
    proof {
        assert(spec_collect_kids(*d, *n, cur@, children@.len() as int, sel@) =~= Seq::<
            Seq<usize>,
        >::empty());
        assert(out.deep_view() + Seq::<Seq<usize>>::empty() =~= out.deep_view());
    }
}

/// All matches of `sel` searching from the node at `start`, in document
/// order, as paths from the document root.
pub fn select_all(d: &DomNode, start: &Vec<usize>, sel: &Selector) -> (r: Vec<Vec<usize>>)
    ensures
        r.deep_view() == spec_select(*d, start@, sel@),
{
    let mut out: Vec<Vec<usize>> = Vec::new();
    proof {
        assert(out.deep_view() =~= Seq::<Seq<usize>>::empty());
    }
    match node_at(d, start) {
        Some(n) => {
            collect(d, n, start, sel, &mut out);
            proof {
                assert(Seq::<Seq<usize>>::empty() + spec_collect(*d, *n, start@, sel@)
                    =~= spec_collect(*d, *n, start@, sel@));
            }
            out
        },
        None => out,
    }
}

/// The first match of `sel` from `start` in document order, if any.
pub fn select_first(d: &DomNode, start: &Vec<usize>, sel: &Selector) -> (r: Option<Vec<usize>>)
    ensures
        match r {
            Some(q) => spec_select_first(*d, start@, sel@) == Some(q@),
            None => spec_select_first(*d, start@, sel@) is None,
        },
{
    let mut all = select_all(d, start, sel);
    if all.len() == 0 {
        None
    } else {
        let first = all.remove(0);
        proof {
            assert(first@ == spec_select(*d, start@, sel@)[0]);
        }
        Some(first)
    }
}

} // verus!

//! A plain document model and the structured query capability over it.
//!
//! A parsed listing document is an arena of element nodes in document
//! order. Each node records its tag name, its classes, its attributes,
//! its text content and the index of its parent; every non-root node's
//! parent stands strictly before it, so ancestor walks terminate.
//! Locators select nodes by tag or class along a descendant path, as a
//! layout schema describes them.

use vstd::prelude::*;

verus! {

/// One attribute of an element node.
pub struct Attr {
    pub name: String,
    pub value: String,
}

#[verifier::ext_equal]
pub ghost struct AttrView {
    pub name: Seq<char>,
    pub value: Seq<char>,
}

impl View for Attr {
    type V = AttrView;

    open spec fn view(&self) -> AttrView {
        AttrView { name: self.name@, value: self.value@ }
    }
}

/// One element node of a parsed document.
pub struct DocNode {
    pub tag: String,
    pub classes: Vec<String>,
    pub attrs: Vec<Attr>,
    pub text: String,
    pub parent: usize,
}

#[verifier::ext_equal]
pub ghost struct NodeView {
    pub tag: Seq<char>,
    pub classes: Seq<Seq<char>>,
    pub attrs: Seq<AttrView>,
    pub text: Seq<char>,
    pub parent: int,
}

impl View for DocNode {
    type V = NodeView;

    open spec fn view(&self) -> NodeView {
        NodeView {
            tag: self.tag@,
            classes: self.classes@.map_values(|c: String| c@),
            attrs: self.attrs@.map_values(|a: Attr| a@),
            text: self.text@,
            parent: self.parent as int,
        }
    }
}

/// A parsed listing document: its element nodes in document order,
/// rooted at index zero.
pub struct IplayerDocument {
    pub nodes: Vec<DocNode>,
}

impl View for IplayerDocument {
    type V = Seq<NodeView>;

    open spec fn view(&self) -> Seq<NodeView> {
        self.nodes@.map_values(|n: DocNode| n@)
    }
}

/// A well-formed document has a root at index zero and every other
/// node's parent strictly before the node itself.
pub open spec fn wf_doc(d: Seq<NodeView>) -> bool {
    &&& d.len() >= 1
    &&& d[0].parent == 0
    &&& forall|i: int| 1 <= i < d.len() ==> 0 <= #[trigger] d[i].parent < i
}

/// One step of a locator path: select by tag name or by class.
#[derive(Debug)]
pub enum Selector {
    Tag(String),
    Class(String),
}

#[verifier::ext_equal]
pub ghost enum SelectorView {
    Tag(Seq<char>),
    Class(Seq<char>),
}

impl View for Selector {
    type V = SelectorView;

    open spec fn view(&self) -> SelectorView {
        match self {
            Selector::Tag(t) => SelectorView::Tag(t@),
            Selector::Class(c) => SelectorView::Class(c@),
        }
    }
}

/// A declarative locator: a descendant path of selectors, as one field
/// of a layout schema describes it.
#[derive(Debug)]
pub struct Locator {
    pub path: Vec<Selector>,
}

impl View for Locator {
    type V = Seq<SelectorView>;

    open spec fn view(&self) -> Seq<SelectorView> {
        self.path@.map_values(|s: Selector| s@)
    }
}

pub open spec fn node_has_class(n: NodeView, c: Seq<char>) -> bool {
    exists|i: int| 0 <= i < n.classes.len() && n.classes[i] == c
}

pub open spec fn sel_matches(n: NodeView, s: SelectorView) -> bool {
    match s {
        SelectorView::Tag(t) => n.tag == t,
        SelectorView::Class(c) => node_has_class(n, c),
    }
}

/// Whether node `n` stands strictly below node `scope`, following
/// parent links.
pub open spec fn is_strict_desc(d: Seq<NodeView>, scope: int, n: int) -> bool
    decreases n,
{
    if 0 < n < d.len() && 0 <= d[n].parent < n {
        d[n].parent == scope || is_strict_desc(d, scope, d[n].parent)
    } else {
        false
    }
}

/// Whether the selectors of `pre` are matched, in order with the last
/// one innermost, by strict ancestors of node `n` that stand strictly
/// below `scope`; with `pre` empty, whether `n` itself stands strictly
/// below `scope`.
pub open spec fn rest_above(d: Seq<NodeView>, scope: int, n: int, pre: Seq<SelectorView>) -> bool
    decreases n,
{
    if pre.len() == 0 {
        is_strict_desc(d, scope, n)
    } else if 0 < n < d.len() && 0 <= d[n].parent < n {
        let p = d[n].parent;
        (sel_matches(d[p], pre.last()) && rest_above(d, scope, p, pre.drop_last())) || rest_above(
            d,
            scope,
            p,
            pre,
        )
    } else {
        false
    }
}

/// Whether node `n` matches the locator path within the subtree of
/// `scope`: the last selector matches `n` itself and each earlier
/// selector matches some ancestor in order, all strictly below `scope`.
pub open spec fn loc_matches(
    d: Seq<NodeView>,
    scope: int,
    n: int,
    path: Seq<SelectorView>,
) -> bool {
    &&& path.len() > 0
    &&& 0 <= n < d.len()
    &&& sel_matches(d[n], path.last())
    &&& rest_above(d, scope, n, path.drop_last())
}

pub open spec fn first_match_from(
    d: Seq<NodeView>,
    scope: int,
    path: Seq<SelectorView>,
    i: int,
) -> Option<int>
    decreases d.len() - i
        when 0 <= i
{
    if i >= d.len() {
        None
    } else if loc_matches(d, scope, i, path) {
        Some(i)
    } else {
        first_match_from(d, scope, path, i + 1)
    }
}

/// The first node in document order that matches the locator within
/// `scope`, if any.
pub open spec fn first_match(d: Seq<NodeView>, scope: int, path: Seq<SelectorView>) -> Option<int> {
    first_match_from(d, scope, path, 0)
}

pub open spec fn matches_upto(d: Seq<NodeView>, scope: int, path: Seq<SelectorView>, i: int) -> Seq<
    int,
>
    decreases i
        when 0 <= i
{
    if i <= 0 {
        Seq::empty()
    } else {
        let pre = matches_upto(d, scope, path, i - 1);
        if loc_matches(d, scope, i - 1, path) {
            pre.push(i - 1)
        } else {
            pre
        }
    }
}

/// All nodes that match the locator within `scope`, in document order.
pub open spec fn match_list(d: Seq<NodeView>, scope: int, path: Seq<SelectorView>) -> Seq<int> {
    matches_upto(d, scope, path, d.len() as int)
}

/// The value of the first attribute with the given name, if any.
pub open spec fn attr_lookup(attrs: Seq<AttrView>, name: Seq<char>) -> Option<Seq<char>>
    decreases attrs.len(),
{
    if attrs.len() == 0 {
        None
    } else if attrs[0].name == name {
        Some(attrs[0].value)
    } else {
        attr_lookup(attrs.drop_first(), name)
    }
}

/// Whether two string slices hold the same characters.
pub fn str_eq(a: &str, b: &str) -> (r: bool)
    ensures
        r == (a@ == b@),
{
    let alen = a.unicode_len();
    let blen = b.unicode_len();
    if alen != blen {
        return false;
    }
    let mut i: usize = 0;
    while i < alen
        invariant
            0 <= i <= alen,
            alen == a@.len(),
            alen == b@.len(),
            forall|k: int| 0 <= k < i ==> a@[k] == b@[k],
        decreases alen - i,
    {
        if a.get_char(i) != b.get_char(i) {
            return false;
        }
        i = i + 1;
    }
    assert(a@ =~= b@);
    true
}

impl IplayerDocument {
    pub open spec fn wf(&self) -> bool {
        wf_doc(self@)
    }

    /// Whether the document is well formed: a caller that builds a
    /// document from untrusted input checks this once and the query
    /// functions then terminate on it.
    pub fn check_wf(&self) -> (r: bool)
        ensures
            r == self.wf(),
    {
        if self.nodes.len() == 0 {
            return false;
        }
        if self.nodes[0].parent != 0 {
            assert(self@[0].parent != 0);
            return false;
        }
        let mut i: usize = 1;
        while i < self.nodes.len()
            invariant
                1 <= i <= self.nodes.len(),
                self.nodes.len() >= 1,
                self@[0].parent == 0,
                forall|k: int| 1 <= k < i ==> 0 <= #[trigger] self@[k].parent < k,
            decreases self.nodes.len() - i,
        {
            if self.nodes[i].parent >= i {
                assert(self@[i as int].parent >= i as int);
                return false;
            }
            i = i + 1;
        }
        true
    }
}

fn has_class(n: &DocNode, c: &String) -> (r: bool)
    ensures
        r == node_has_class(n@, c@),
{
    let mut i: usize = 0;
    while i < n.classes.len()
        invariant
            0 <= i <= n.classes.len(),
            forall|k: int| 0 <= k < i ==> n@.classes[k] != c@,
        decreases n.classes.len() - i,
    {
        if n.classes[i] == *c {
            assert(n@.classes[i as int] == c@);
            return true;
        }
        i = i + 1;
    }
    false
}

fn sel_match(n: &DocNode, s: &Selector) -> (r: bool)
    ensures
        r == sel_matches(n@, s@),
{
    match s {
        Selector::Tag(t) => n.tag == *t,
        Selector::Class(c) => has_class(n, c),
    }
}

fn strict_desc(doc: &IplayerDocument, scope: usize, n: usize) -> (r: bool)
    requires
        doc.wf(),
        scope < doc.nodes.len(),
        n < doc.nodes.len(),
    ensures
        r == is_strict_desc(doc@, scope as int, n as int),
{
    let mut cur = n;
    loop
        invariant
            doc.wf(),
            scope < doc.nodes.len(),
            n < doc.nodes.len(),
            cur < doc.nodes.len(),
            is_strict_desc(doc@, scope as int, n as int) == is_strict_desc(
                doc@,
                scope as int,
                cur as int,
            ),
        decreases cur,
    {
        if cur == 0 {
            return false;
        }
        let p = self_parent(doc, cur);
        if p == scope {
            return true;
        }
        cur = p;
    }
}

fn self_parent(doc: &IplayerDocument, n: usize) -> (p: usize)
    requires
        doc.wf(),
        0 < n < doc.nodes.len(),
    ensures
        p as int == doc@[n as int].parent,
        p < n,
{
    let p = doc.nodes[n].parent;
    assert(doc@[n as int] == doc.nodes@[n as int]@);
    assert(0 <= doc@[n as int].parent < n as int);
    p
}

fn rest_above_at(doc: &IplayerDocument, scope: usize, n: usize, loc: &Locator, plen: usize) -> (r: bool)
    requires
        doc.wf(),
        scope < doc.nodes.len(),
        n < doc.nodes.len(),
        plen <= loc.path.len(),
    ensures
        r == rest_above(doc@, scope as int, n as int, loc@.subrange(0, plen as int)),
    decreases n,
{
    let ghost pre = loc@.subrange(0, plen as int);
    if plen == 0 {
        strict_desc(doc, scope, n)
    } else if n == 0 {
        false
    } else {
        let p = self_parent(doc, n);
        proof {
            assert(pre.last() == loc@[plen - 1]);
            assert(pre.drop_last() =~= loc@.subrange(0, plen - 1));
        }
        let matched = sel_match(&doc.nodes[p], &loc.path[plen - 1]) && rest_above_at(
            doc,
            scope,
            p,
            loc,
            plen - 1,
        );
        if matched {
            true
        } else {
            rest_above_at(doc, scope, p, loc, plen)
        }
    }
}

fn loc_match_at(doc: &IplayerDocument, scope: usize, n: usize, loc: &Locator) -> (r: bool)
    requires
        doc.wf(),
        scope < doc.nodes.len(),
        n < doc.nodes.len(),
    ensures
        r == loc_matches(doc@, scope as int, n as int, loc@),
{
    if loc.path.len() == 0 {
        return false;
    }
    let last = loc.path.len() - 1;
    proof {
        assert(loc@.last() == loc@[last as int]);
        assert(loc@.drop_last() =~= loc@.subrange(0, last as int));
    }
    sel_match(&doc.nodes[n], &loc.path[last]) && rest_above_at(doc, scope, n, loc, last)
}

/// The first node in document order that matches the locator within
/// the subtree of `scope`, if any.
pub fn find_first(doc: &IplayerDocument, scope: usize, loc: &Locator) -> (r: Option<usize>)
    requires
        doc.wf(),
        scope < doc.nodes.len(),
    ensures
        r matches Some(n) ==> n < doc.nodes.len() && first_match(doc@, scope as int, loc@)
            == Some(n as int),
        r is None ==> first_match(doc@, scope as int, loc@) is None,
{
    let mut i: usize = 0;
    while i < doc.nodes.len()
        invariant
            doc.wf(),
            scope < doc.nodes.len(),
            0 <= i <= doc.nodes.len(),
            first_match(doc@, scope as int, loc@) == first_match_from(
                doc@,
                scope as int,
                loc@,
                i as int,
            ),
        decreases doc.nodes.len() - i,
    {
        if loc_match_at(doc, scope, i, loc) {
            return Some(i);
        }
        i = i + 1;
    }
    None
}

/// All nodes that match the locator within the subtree of `scope`, in
/// document order.
pub fn find_all(doc: &IplayerDocument, scope: usize, loc: &Locator) -> (r: Vec<usize>)
    requires
        doc.wf(),
        scope < doc.nodes.len(),
    ensures
        r@.map_values(|x: usize| x as int) == match_list(doc@, scope as int, loc@),
        forall|k: int| 0 <= k < r@.len() ==> #[trigger] r@[k] < doc.nodes.len(),
{
    let mut out: Vec<usize> = Vec::new();
    let mut i: usize = 0;
    while i < doc.nodes.len()
        invariant
            doc.wf(),
            scope < doc.nodes.len(),
            0 <= i <= doc.nodes.len(),
            out@.map_values(|x: usize| x as int) =~= matches_upto(
                doc@,
                scope as int,
                loc@,
                i as int,
            ),
            forall|k: int| 0 <= k < out@.len() ==> #[trigger] out@[k] < doc.nodes.len(),
        decreases doc.nodes.len() - i,
    {
        if loc_match_at(doc, scope, i, loc) {
            out.push(i);
        }
        proof {
            assert(out@.map_values(|x: usize| x as int) =~= matches_upto(
                doc@,
                scope as int,
                loc@,
                i as int + 1,
            ));
        }
        i = i + 1;
    }
    out
}

/// The value of the first attribute with the given name on the node,
/// if any.
pub fn node_attr(n: &DocNode, name: &str) -> (r: Option<String>)
    ensures
        r matches Some(v) ==> attr_lookup(n@.attrs, name@) == Some(v@),
        r is None ==> attr_lookup(n@.attrs, name@) is None,
{
    proof {
        assert(n@.attrs.skip(0) =~= n@.attrs);
    }
    let mut i: usize = 0;
    while i < n.attrs.len()
        invariant
            0 <= i <= n.attrs.len(),
            attr_lookup(n@.attrs, name@) == attr_lookup(n@.attrs.skip(i as int), name@),
        decreases n.attrs.len() - i,
    {
        proof {
            assert(n@.attrs.skip(i as int)[0] == n@.attrs[i as int]);
            assert(n@.attrs.skip(i as int).drop_first() =~= n@.attrs.skip(i as int + 1));
        }
        if str_eq(n.attrs[i].name.as_str(), name) {
            return Some(n.attrs[i].value.clone());
        }
        i = i + 1;
    }
    proof {
        assert(n@.attrs.skip(n@.attrs.len() as int).len() == 0);
    }
    None
}

} // verus!

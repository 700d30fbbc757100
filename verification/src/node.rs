//! A generic ISO 20022 message tree ([`MxNode`]): read any message's fields
//! without a typed model, navigating by local element name.

use vstd::prelude::*;
use crate::app_hdr::opt_str;
use crate::text::{
    chars_eq, chars_of, is_ws, lemma_trim_noop, owned, trim, trim_end, trim_start, trimmed_string,
};

verus! {

/// A node in a parsed message tree: an element with its local name,
/// attributes, text value (for a leaf) and child elements.
#[derive(Debug, PartialEq, Eq, Default)]
pub struct MxNode {
    /// Local element name (namespace prefix stripped), e.g. `"MsgId"`.
    pub name: String,
    /// Text content, for a leaf element.
    pub value: Option<String>,
    /// Attributes as `(local-name, value)` pairs, e.g. `("Ccy", "EUR")`.
    pub attributes: Vec<(String, String)>,
    /// Child elements.
    pub children: Vec<MxNode>,
}

/// The value of an [`MxNode`].
pub struct MxNodeV {
    pub name: Seq<char>,
    pub value: Option<Seq<char>>,
    pub attributes: Seq<(Seq<char>, Seq<char>)>,
    pub children: Seq<MxNodeV>,
}

/// The value of a list of attributes.
pub open spec fn attrs_view(a: Seq<(String, String)>) -> Seq<(Seq<char>, Seq<char>)> {
    a.map_values(|p: (String, String)| (p.0@, p.1@))
}

/// The value of a node.
pub open spec fn node_view(n: MxNode) -> MxNodeV
    decreases n,
{
    MxNodeV {
        name: n.name@,
        value: opt_str(n.value),
        attributes: attrs_view(n.attributes@),
        children: Seq::new(
            n.children@.len(),
            |i: int|
                if 0 <= i < n.children@.len() {
                    proof {
                        assert(decreases_to!(n => n.children@[i]));
                    }
                    node_view(n.children@[i])
                } else {
                    arbitrary()
                },
        ),
    }
}

impl View for MxNode {
    type V = MxNodeV;

    open spec fn view(&self) -> MxNodeV {
        node_view(*self)
    }
}

/// The values of a list of nodes.
pub open spec fn nodes_view(s: Seq<MxNode>) -> Seq<MxNodeV> {
    s.map_values(|n: MxNode| n@)
}

/// The value of an optional node reference.
pub open spec fn opt_node(o: Option<&MxNode>) -> Option<MxNodeV> {
    match o {
        Some(n) => Some(n@),
        None => None,
    }
}

pub proof fn lemma_children_view(n: MxNode)
    ensures
        n@.children.len() == n.children@.len(),
        forall|i: int| 0 <= i < n.children@.len() ==> #[trigger] n@.children[i] == n.children@[i]@,
{
}

impl MxNode {
    /// A copy of this tree, node by node.
    fn deep_copy(&self) -> (r: MxNode)
        ensures
            r@ == self@,
        decreases self,
    {
        let mut attributes: Vec<(String, String)> = Vec::new();
        let mut i: usize = 0;
        while i < self.attributes.len()
            invariant
                i <= self.attributes@.len(),
                attributes@.len() == i,
                forall|k: int|
                    0 <= k < i ==> (#[trigger] attributes@[k]).0@ == self.attributes@[k].0@
                        && attributes@[k].1@ == self.attributes@[k].1@,
            decreases self.attributes.len() - i,
        {
            let a = &self.attributes[i];
            attributes.push((owned(a.0.as_str()), owned(a.1.as_str())));
            i = i + 1;
        }
        let mut children: Vec<MxNode> = Vec::new();
        let mut j: usize = 0;
        while j < self.children.len()
            invariant
                j <= self.children@.len(),
                children@.len() == j,
                forall|k: int| 0 <= k < j ==> (#[trigger] children@[k])@ == self.children@[k]@,
            decreases self.children.len() - j,
        {
            proof {
                assert(decreases_to!(self => self.children@[j as int]));
            }
            let c = self.children[j].deep_copy();
            children.push(c);
            j = j + 1;
        }
        let value = match &self.value {
            Some(v) => Some(owned(v.as_str())),
            None => None,
        };
        let r = MxNode { name: owned(self.name.as_str()), value, attributes, children };
        assert(attrs_view(r.attributes@) =~= attrs_view(self.attributes@));
        assert(r@.children =~= self@.children);
        r
    }
}

impl Clone for MxNode {
    fn clone(&self) -> (r: Self)
        ensures
            r@ == self@,
    {
        self.deep_copy()
    }
}

// ------------------------------------------------------------ navigation ---

/// The value of the first attribute of `a` at or after `i` named `name`.
pub open spec fn attr_from(a: Seq<(Seq<char>, Seq<char>)>, name: Seq<char>, i: int) -> Option<
    Seq<char>,
>
    decreases a.len() - i,
{
    if i < 0 || i >= a.len() {
        None
    } else if a[i].0 == name {
        Some(a[i].1)
    } else {
        attr_from(a, name, i + 1)
    }
}

/// The first node of `cs` at or after `i` named `name`.
pub open spec fn child_from(cs: Seq<MxNodeV>, name: Seq<char>, i: int) -> Option<MxNodeV>
    decreases cs.len() - i,
{
    if i < 0 || i >= cs.len() {
        None
    } else if cs[i].name == name {
        Some(cs[i])
    } else {
        child_from(cs, name, i + 1)
    }
}

/// The node reached from `n` by following `path`, one child name at a time.
pub open spec fn at_path(n: MxNodeV, path: Seq<Seq<char>>) -> Option<MxNodeV>
    decreases path.len(),
{
    if path.len() == 0 {
        Some(n)
    } else {
        match child_from(n.children, path[0], 0) {
            Some(c) => at_path(c, path.drop_first()),
            None => None,
        }
    }
}

/// The first node named `name` in a depth-first walk of the forest `cs`,
/// where a node comes before its descendants and after its elder siblings'
/// subtrees.
pub open spec fn find_forest(cs: Seq<MxNodeV>, name: Seq<char>) -> Option<MxNodeV>
    decreases cs,
{
    if cs.len() == 0 {
        None
    } else {
        let c = cs[0];
        if c.name == name {
            Some(c)
        } else {
            proof {
                assert(decreases_to!(cs => cs[0]));
                assert(decreases_to!(cs => cs.drop_first()));
            }
            match find_forest(c.children, name) {
                Some(x) => Some(x),
                None => find_forest(cs.drop_first(), name),
            }
        }
    }
}

/// Every node named `name` in the forest `cs`, in depth-first order.
pub open spec fn collect_forest(cs: Seq<MxNodeV>, name: Seq<char>) -> Seq<MxNodeV>
    decreases cs,
{
    if cs.len() == 0 {
        Seq::empty()
    } else {
        let c = cs[0];
        proof {
            assert(decreases_to!(cs => cs[0]));
            assert(decreases_to!(cs => cs.drop_first()));
        }
        (if c.name == name {
            seq![c]
        } else {
            Seq::empty()
        }) + collect_forest(c.children, name) + collect_forest(cs.drop_first(), name)
    }
}

/// The path given as string slices, as values.
pub open spec fn path_view(p: Seq<&str>) -> Seq<Seq<char>> {
    p.map_values(|s: &str| s@)
}

impl MxNode {
    /// The text value of this node, if it is a leaf with content.
    pub fn text(&self) -> (r: Option<&str>)
        ensures
            match r {
                Some(t) => self@.value == Some(t@),
                None => self@.value is None,
            },
    {
        match &self.value {
            Some(v) => Some(v.as_str()),
            None => None,
        }
    }

    /// The value of an attribute by local name, e.g. `"Ccy"`.
    pub fn attr(&self, name: &str) -> (r: Option<&str>)
        ensures
            match r {
                Some(t) => attr_from(self@.attributes, name@, 0) == Some(t@),
                None => attr_from(self@.attributes, name@, 0) is None,
            },
    {
        let n = chars_of(name);
        let mut i: usize = 0;
        while i < self.attributes.len()
            invariant
                i <= self.attributes@.len(),
                n@ == name@,
                self@.attributes == attrs_view(self.attributes@),
                attr_from(self@.attributes, name@, 0) == attr_from(self@.attributes, name@, i as int),
            decreases self.attributes.len() - i,
        {
            let k = chars_of(self.attributes[i].0.as_str());
            if chars_eq(k.as_slice(), n.as_slice()) {
                return Some(self.attributes[i].1.as_str());
            }
            i = i + 1;
        }
        None
    }

    /// The first direct child with the given local name.
    pub fn get(&self, name: &str) -> (r: Option<&MxNode>)
        ensures
            opt_node(r) == child_from(self@.children, name@, 0),
    {
        let n = chars_of(name);
        proof {
            lemma_children_view(*self);
        }
        let mut i: usize = 0;
        while i < self.children.len()
            invariant
                i <= self.children@.len(),
                n@ == name@,
                self@.children.len() == self.children@.len(),
                forall|k: int| 0 <= k < self.children@.len() ==> #[trigger] self@.children[k] == self.children@[k]@,
                child_from(self@.children, name@, 0) == child_from(self@.children, name@, i as int),
            decreases self.children.len() - i,
        {
            let c = &self.children[i];
            let k = chars_of(c.name.as_str());
            assert(self@.children[i as int].name == c.name@);
            if chars_eq(k.as_slice(), n.as_slice()) {
                return Some(c);
            }
            i = i + 1;
        }
        None
    }

    /// Navigate a path of local element names from this node.
    pub fn at(&self, path: &[&str]) -> (r: Option<&MxNode>)
        ensures
            opt_node(r) == at_path(self@, path_view(path@)),
    {
        let mut cur = self;
        let mut i: usize = 0;
        assert(path_view(path@).subrange(0, path@.len() as int) =~= path_view(path@));
        while i < path.len()
            invariant
                i <= path@.len(),
                at_path(self@, path_view(path@)) == at_path(cur@, path_view(path@).subrange(i as int, path@.len() as int)),
            decreases path.len() - i,
        {
            let ghost rest = path_view(path@).subrange(i as int, path@.len() as int);
            assert(rest[0] == path@[i as int]@);
            assert(rest.drop_first() =~= path_view(path@).subrange(i + 1, path@.len() as int));
            match cur.get(path[i]) {
                Some(c) => {
                    cur = c;
                },
                None => {
                    return None;
                },
            }
            i = i + 1;
        }
        assert(path_view(path@).subrange(path@.len() as int, path@.len() as int) =~= Seq::<Seq<char>>::empty());
        Some(cur)
    }

    /// The first descendant (depth-first) with the given local name.
    pub fn find(&self, name: &str) -> (r: Option<&MxNode>)
        ensures
            opt_node(r) == find_forest(self@.children, name@),
        decreases self,
    {
        let n = chars_of(name);
        proof {
            lemma_children_view(*self);
        }
        let mut i: usize = 0;
        assert(self@.children.subrange(0, self@.children.len() as int) =~= self@.children);
        while i < self.children.len()
            invariant
                i <= self.children@.len(),
                n@ == name@,
                self@.children.len() == self.children@.len(),
                forall|k: int| 0 <= k < self.children@.len() ==> #[trigger] self@.children[k] == self.children@[k]@,
                find_forest(self@.children, name@) == find_forest(self@.children.subrange(i as int, self@.children.len() as int), name@),
            decreases self.children.len() - i,
        {
            let c = &self.children[i];
            let ghost rest = self@.children.subrange(i as int, self@.children.len() as int);
            assert(rest[0] == c@);
            assert(rest.drop_first() =~= self@.children.subrange(i + 1, self@.children.len() as int));
            let k = chars_of(c.name.as_str());
            if chars_eq(k.as_slice(), n.as_slice()) {
                return Some(c);
            }
            proof {
                assert(decreases_to!(self => self.children@[i as int]));
            }
            match c.find(name) {
                Some(f) => {
                    return Some(f);
                },
                None => {},
            }
            i = i + 1;
        }
        assert(self@.children.subrange(self@.children.len() as int, self@.children.len() as int) =~= Seq::<MxNodeV>::empty());
        None
    }

    /// All descendants with the given local name, in depth-first order.
    pub fn find_all<'a>(&'a self, name: &str) -> (r: Vec<&'a MxNode>)
        ensures
            r@.map_values(|n: &MxNode| n@) == collect_forest(self@.children, name@),
    {
        let mut out: Vec<&'a MxNode> = Vec::new();
        self.collect(name, &mut out);
        assert(out@.map_values(|n: &MxNode| n@) =~= Seq::<MxNodeV>::empty() + collect_forest(self@.children, name@));
        out
    }

    fn collect<'a>(&'a self, name: &str, out: &mut Vec<&'a MxNode>)
        ensures
            final(out)@.map_values(|n: &MxNode| n@) == old(out)@.map_values(|n: &MxNode| n@) + collect_forest(self@.children, name@),
        decreases self,
    {
        let n = chars_of(name);
        proof {
            lemma_children_view(*self);
        }
        let ghost start = out@.map_values(|n: &MxNode| n@);
        let mut i: usize = 0;
        assert(self@.children.subrange(0, self@.children.len() as int) =~= self@.children);
        while i < self.children.len()
            invariant
                i <= self.children@.len(),
                n@ == name@,
                self@.children.len() == self.children@.len(),
                forall|k: int| 0 <= k < self.children@.len() ==> #[trigger] self@.children[k] == self.children@[k]@,
                start + collect_forest(self@.children, name@) == out@.map_values(|n: &MxNode| n@) + collect_forest(self@.children.subrange(i as int, self@.children.len() as int), name@),
            decreases self.children.len() - i,
        {
            let c = &self.children[i];
            let ghost rest = self@.children.subrange(i as int, self@.children.len() as int);
            let ghost before = out@.map_values(|n: &MxNode| n@);
            assert(rest[0] == c@);
            assert(rest.drop_first() =~= self@.children.subrange(i + 1, self@.children.len() as int));
            let k = chars_of(c.name.as_str());
            if chars_eq(k.as_slice(), n.as_slice()) {
                out.push(c);
                assert(out@.map_values(|n: &MxNode| n@) =~= before + seq![c@]);
            } else {
                assert(out@.map_values(|n: &MxNode| n@) =~= before + Seq::<MxNodeV>::empty());
            }
            let ghost mid = out@.map_values(|n: &MxNode| n@);
            proof {
                assert(decreases_to!(self => self.children@[i as int]));
            }
            c.collect(name, out);
            assert(out@.map_values(|n: &MxNode| n@) == mid + collect_forest(c@.children, name@));
            i = i + 1;
        }
        assert(self@.children.subrange(self@.children.len() as int, self@.children.len() as int) =~= Seq::<MxNodeV>::empty());
        assert(collect_forest(Seq::<MxNodeV>::empty(), name@) =~= Seq::<MxNodeV>::empty());
    }
}

/// Following the empty path stays at the node.
pub proof fn lemma_at_empty(n: MxNodeV)
    ensures
        at_path(n, Seq::empty()) == Some(n),
{
}

/// Following `p + q` is following `p`, then `q` from where `p` led.
pub proof fn lemma_at_concat(n: MxNodeV, p: Seq<Seq<char>>, q: Seq<Seq<char>>)
    ensures
        at_path(n, p + q) == (match at_path(n, p) {
            Some(m) => at_path(m, q),
            None => None,
        }),
    decreases p.len(),
{
    if p.len() == 0 {
        assert(p + q =~= q);
    } else {
        assert((p + q)[0] == p[0]);
        assert((p + q).drop_first() =~= p.drop_first() + q);
        match child_from(n.children, p[0], 0) {
            Some(c) => {
                lemma_at_concat(c, p.drop_first(), q);
            },
            None => {},
        }
    }
}

/// The first descendant named `name` is the first of all descendants so named:
/// `find(name)` is `find_all(name).first()`.
pub proof fn lemma_find_is_first_of_find_all(cs: Seq<MxNodeV>, name: Seq<char>)
    ensures
        find_forest(cs, name) == (if collect_forest(cs, name).len() > 0 {
            Some(collect_forest(cs, name)[0])
        } else {
            None
        }),
    decreases cs,
{
    if cs.len() > 0 {
        let c = cs[0];
        assert(decreases_to!(cs => cs[0]));
        assert(decreases_to!(cs => cs.drop_first()));
        lemma_find_is_first_of_find_all(c.children, name);
        lemma_find_is_first_of_find_all(cs.drop_first(), name);
        let a = if c.name == name {
            seq![c]
        } else {
            Seq::empty()
        };
        let b = collect_forest(c.children, name);
        let d = collect_forest(cs.drop_first(), name);
        assert(collect_forest(cs, name) == a + b + d);
        if c.name != name {
            assert(a + b + d =~= b + d);
            if b.len() > 0 {
                assert((b + d)[0] == b[0]);
            } else {
                assert(b + d =~= d);
            }
        }
    }
}

/// An empty forest holds no match.
pub proof fn lemma_empty_forest(name: Seq<char>)
    ensures
        find_forest(Seq::<MxNodeV>::empty(), name) is None,
        collect_forest(Seq::<MxNodeV>::empty(), name).len() == 0,
{
}

/// A node comes before its descendants: a node named `name` is found
/// itself, never a descendant of the same name; any other node is searched
/// through its descendants.
pub proof fn lemma_find_one(c: MxNodeV, name: Seq<char>)
    ensures
        find_forest(seq![c], name) == (if c.name == name {
            Some(c)
        } else {
            find_forest(c.children, name)
        }),
{
    assert(seq![c][0] == c);
    assert(seq![c].drop_first() =~= Seq::<MxNodeV>::empty());
    assert(find_forest(Seq::<MxNodeV>::empty(), name) is None);
}

/// Siblings are searched in document order: the search of `a + b` finds what
/// the search of `a` finds, and searches `b` only when `a` holds no match.
pub proof fn lemma_find_concat(a: Seq<MxNodeV>, b: Seq<MxNodeV>, name: Seq<char>)
    ensures
        find_forest(a + b, name) == (match find_forest(a, name) {
            Some(x) => Some(x),
            None => find_forest(b, name),
        }),
    decreases a.len(),
{
    if a.len() == 0 {
        assert(a + b =~= b);
    } else {
        assert((a + b)[0] == a[0]);
        assert((a + b).drop_first() =~= a.drop_first() + b);
        lemma_find_concat(a.drop_first(), b, name);
    }
}

/// Pre-order of `find_all` for one node: a node named `name` is listed first,
/// before its own descendants of that name; any other node contributes its
/// descendants only.
pub proof fn lemma_find_all_one(c: MxNodeV, name: Seq<char>)
    ensures
        collect_forest(seq![c], name) == (if c.name == name {
            seq![c] + collect_forest(c.children, name)
        } else {
            collect_forest(c.children, name)
        }),
{
    assert(seq![c][0] == c);
    assert(seq![c].drop_first() =~= Seq::<MxNodeV>::empty());
    assert(collect_forest(Seq::<MxNodeV>::empty(), name) =~= Seq::<MxNodeV>::empty());
    if c.name == name {
        assert(collect_forest(seq![c], name) =~= seq![c] + collect_forest(c.children, name));
    } else {
        assert(collect_forest(seq![c], name) =~= collect_forest(c.children, name));
    }
}

/// Siblings are listed in document order: `find_all` over `a + b` lists the
/// matches of `a`, then those of `b`.
pub proof fn lemma_find_all_concat(a: Seq<MxNodeV>, b: Seq<MxNodeV>, name: Seq<char>)
    ensures
        collect_forest(a + b, name) == collect_forest(a, name) + collect_forest(b, name),
    decreases a.len(),
{
    if a.len() == 0 {
        assert(a + b =~= b);
        assert(collect_forest(a, name) =~= Seq::<MxNodeV>::empty());
        assert(collect_forest(a + b, name) =~= collect_forest(a, name) + collect_forest(b, name));
    } else {
        assert((a + b)[0] == a[0]);
        assert((a + b).drop_first() =~= a.drop_first() + b);
        lemma_find_all_concat(a.drop_first(), b, name);
        assert(collect_forest(a + b, name) =~= collect_forest(a, name) + collect_forest(b, name));
    }
}

/// The first node of a forest, when it has the name asked for, is what `find`
/// returns and what `find_all` lists first, ahead of its descendants.
pub proof fn lemma_ancestor_first(cs: Seq<MxNodeV>, name: Seq<char>)
    requires
        cs.len() > 0,
        cs[0].name == name,
    ensures
        find_forest(cs, name) == Some(cs[0]),
        collect_forest(cs, name).len() > 0,
        collect_forest(cs, name)[0] == cs[0],
{
    assert(cs =~= seq![cs[0]] + cs.drop_first());
    lemma_find_one(cs[0], name);
    lemma_find_concat(seq![cs[0]], cs.drop_first(), name);
    lemma_find_all_one(cs[0], name);
    lemma_find_all_concat(seq![cs[0]], cs.drop_first(), name);
}

/// Every node that `find_all` returns has the name asked for.
pub proof fn lemma_find_all_names(cs: Seq<MxNodeV>, name: Seq<char>)
    ensures
        forall|i: int|
            0 <= i < collect_forest(cs, name).len() ==> (#[trigger] collect_forest(cs, name)[i]).name
                == name,
    decreases cs,
{
    if cs.len() > 0 {
        let c = cs[0];
        assert(decreases_to!(cs => cs[0]));
        assert(decreases_to!(cs => cs.drop_first()));
        lemma_find_all_names(c.children, name);
        lemma_find_all_names(cs.drop_first(), name);
        let a = if c.name == name {
            seq![c]
        } else {
            Seq::empty()
        };
        let b = collect_forest(c.children, name);
        let d = collect_forest(cs.drop_first(), name);
        assert forall|i: int| 0 <= i < (a + b + d).len() implies (#[trigger] (a + b + d)[i]).name
            == name by {
            if i < a.len() {
            } else if i < a.len() + b.len() {
                assert((a + b + d)[i] == b[i - a.len()]);
            } else {
                assert((a + b + d)[i] == d[i - a.len() - b.len()]);
            }
        }
    }
}

// ---------------------------------------------------------------- parsing ---

/// An event of the XML reader, as the tree builder sees it.
pub enum XmlToken {
    /// An opening (or bodiless) tag: local name and `(local-name, value)` attributes.
    Start(String, Vec<(String, String)>),
    /// Character data.
    Text(String),
    /// A closing tag (also emitted right after a bodiless tag).
    End,
    /// Anything else: declarations, comments, CDATA, white space, end of document.
    Other,
}

/// The value of an [`XmlToken`].
pub enum XmlTokenV {
    Start(Seq<char>, Seq<(Seq<char>, Seq<char>)>),
    Text(Seq<char>),
    End,
    Other,
}

impl View for XmlToken {
    type V = XmlTokenV;

    open spec fn view(&self) -> XmlTokenV {
        match self {
            XmlToken::Start(n, a) => XmlTokenV::Start(n@, attrs_view(a@)),
            XmlToken::Text(t) => XmlTokenV::Text(t@),
            XmlToken::End => XmlTokenV::End,
            XmlToken::Other => XmlTokenV::Other,
        }
    }
}

/// The values of a list of tokens.
pub open spec fn token_views(v: Seq<XmlToken>) -> Seq<XmlTokenV> {
    v.map_values(|t: XmlToken| t@)
}

/// The values of a token stream.
pub open spec fn tokens_view(o: Option<Vec<XmlToken>>) -> Option<Seq<XmlTokenV>> {
    match o {
        Some(v) => Some(token_views(v@)),
        None => None,
    }
}

/// The event stream that the `xml` crate's pull parser reads from a document,
/// up to and including its end-of-document event; `None` when it reports an
/// error before that.
pub uninterp spec fn xml_events(xml: Seq<char>) -> Option<Seq<XmlTokenV>>;

/// Reads every event of `xml` with `xml::reader::EventReader` (default
/// configuration) until the end of the document, keeping element local
/// names, attribute local names and values, and character data; `None` if
/// the reader reports an error. The contract names the result `xml_events`;
/// what the reader accepts and emits is not restated here.
#[verifier::external_body]
fn read_xml_events(xml: &str) -> (r: Option<Vec<XmlToken>>)
    ensures
        tokens_view(r) == xml_events(xml@),
{
    let mut out = Vec::new();
    for event in xml::reader::EventReader::from_str(xml) {
        out.push(match event.ok()? {
            xml::reader::XmlEvent::StartElement { name, attributes, .. } => XmlToken::Start(
                name.local_name,
                attributes.into_iter().map(|a| (a.name.local_name, a.value)).collect(),
            ),
            xml::reader::XmlEvent::Characters(text) => XmlToken::Text(text),
            xml::reader::XmlEvent::EndElement { .. } => XmlToken::End,
            _ => XmlToken::Other,
        });
    }
    Some(out)
}

/// The state of the tree builder: the open elements, innermost last, and the
/// last element closed at the top level.
pub struct BuildState {
    pub stack: Seq<MxNodeV>,
    pub root: Option<MxNodeV>,
}

/// `node` with `text` appended to its value.
pub open spec fn add_text(node: MxNodeV, text: Seq<char>) -> MxNodeV {
    MxNodeV {
        value: Some(
            match node.value {
                Some(v) => v + text,
                None => text,
            },
        ),
        ..node
    }
}

/// `node` with `child` appended to its children.
pub open spec fn add_child(node: MxNodeV, child: MxNodeV) -> MxNodeV {
    MxNodeV { children: node.children.push(child), ..node }
}

/// One event of the builder: an opening tag opens a node; non-blank text
/// (trimmed) is appended to the value of the innermost open node; a closing
/// tag closes the innermost node and appends it to its parent, or makes it the
/// root at the top level; other events change nothing.
pub open spec fn step(st: BuildState, ev: XmlTokenV) -> BuildState {
    match ev {
        XmlTokenV::Start(name, attributes) => BuildState {
            stack: st.stack.push(
                MxNodeV { name, value: None, attributes, children: Seq::empty() },
            ),
            root: st.root,
        },
        XmlTokenV::Text(t) => if st.stack.len() > 0 && trim(t).len() > 0 {
            BuildState {
                stack: st.stack.update(
                    st.stack.len() - 1,
                    add_text(st.stack.last(), trim(t)),
                ),
                root: st.root,
            }
        } else {
            st
        },
        XmlTokenV::End => if st.stack.len() == 0 {
            st
        } else if st.stack.len() == 1 {
            BuildState { stack: Seq::empty(), root: Some(st.stack.last()) }
        } else {
            let rest = st.stack.drop_last();
            BuildState {
                stack: rest.update(rest.len() - 1, add_child(rest.last(), st.stack.last())),
                root: st.root,
            }
        },
        XmlTokenV::Other => st,
    }
}

/// The builder's state after the events `evs`, from an empty state.
pub open spec fn run(evs: Seq<XmlTokenV>) -> BuildState
    decreases evs.len(),
{
    if evs.len() == 0 {
        BuildState { stack: Seq::empty(), root: None }
    } else {
        step(run(evs.drop_last()), evs.last())
    }
}

/// The tree of an event stream: its last top-level element.
pub open spec fn build_tree(evs: Seq<XmlTokenV>) -> Option<MxNodeV> {
    run(evs).root
}

/// The tree of a document, when the reader accepts it.
pub open spec fn spec_parse_tree(xml: Seq<char>) -> Option<MxNodeV> {
    match xml_events(xml) {
        Some(evs) => build_tree(evs),
        None => None,
    }
}

/// A value that is not empty and has no white space at either end.
pub open spec fn edges_ok(t: Seq<char>) -> bool {
    t.len() > 0 && !is_ws(t[0]) && !is_ws(t.last())
}

/// Every value in the forest `cs` is absent or has [`edges_ok`].
pub open spec fn forest_values_ok(cs: Seq<MxNodeV>) -> bool
    decreases cs,
{
    if cs.len() == 0 {
        true
    } else {
        proof {
            assert(decreases_to!(cs => cs[0]));
            assert(decreases_to!(cs => cs.drop_first()));
        }
        (cs[0].value matches Some(v) ==> edges_ok(v)) && forest_values_ok(cs[0].children)
            && forest_values_ok(cs.drop_first())
    }
}

/// Every value in the tree `n` is absent or has [`edges_ok`].
pub open spec fn values_ok(n: MxNodeV) -> bool {
    (n.value matches Some(v) ==> edges_ok(v)) && forest_values_ok(n.children)
}

/// A value with no white space at its ends is its own trim.
pub proof fn lemma_edges_trimmed(t: Seq<char>)
    requires
        edges_ok(t),
    ensures
        trim(t) == t,
{
    lemma_trim_noop(t);
}

proof fn lemma_trim_start_first(s: Seq<char>)
    ensures
        trim_start(s).len() > 0 ==> !is_ws(trim_start(s)[0]),
    decreases s.len(),
{
    if s.len() > 0 && is_ws(s[0]) {
        lemma_trim_start_first(s.drop_first());
    }
}

proof fn lemma_trim_end_prefix(s: Seq<char>)
    ensures
        trim_end(s).len() <= s.len(),
        trim_end(s) == s.subrange(0, trim_end(s).len() as int),
        trim_end(s).len() > 0 ==> !is_ws(trim_end(s).last()),
    decreases s.len(),
{
    if s.len() > 0 && is_ws(s.last()) {
        lemma_trim_end_prefix(s.drop_last());
        assert(s.drop_last().subrange(0, trim_end(s).len() as int) =~= s.subrange(
            0,
            trim_end(s).len() as int,
        ));
    } else {
        assert(s.subrange(0, s.len() as int) =~= s);
    }
}

proof fn lemma_trim_edges(t: Seq<char>)
    ensures
        trim(t).len() > 0 ==> edges_ok(trim(t)),
{
    let u = trim_start(t);
    lemma_trim_start_first(t);
    lemma_trim_end_prefix(u);
    if trim(t).len() > 0 {
        assert(trim(t)[0] == u.subrange(0, trim(t).len() as int)[0]);
    }
}

proof fn lemma_forest_push(cs: Seq<MxNodeV>, x: MxNodeV)
    ensures
        forest_values_ok(cs.push(x)) == (forest_values_ok(cs) && values_ok(x)),
    decreases cs.len(),
{
    let p = cs.push(x);
    assert(decreases_to!(p => p[0]));
    if cs.len() == 0 {
        assert(p.drop_first() =~= Seq::<MxNodeV>::empty());
        assert(forest_values_ok(Seq::<MxNodeV>::empty()));
        assert(p[0] == x);
        assert(forest_values_ok(p) == ((x.value matches Some(v) ==> edges_ok(v)) && forest_values_ok(
            x.children,
        )));
    } else {
        assert(p[0] == cs[0]);
        assert(p.drop_first() =~= cs.drop_first().push(x));
        lemma_forest_push(cs.drop_first(), x);
        assert(forest_values_ok(p) == ((cs[0].value matches Some(v) ==> edges_ok(v))
            && forest_values_ok(cs[0].children) && forest_values_ok(cs.drop_first().push(x))));
    }
}

/// What the builder keeps: every open node and the root have [`values_ok`].
pub open spec fn state_ok(st: BuildState) -> bool {
    &&& forall|i: int| 0 <= i < st.stack.len() ==> values_ok(#[trigger] st.stack[i])
    &&& st.root matches Some(r) ==> values_ok(r)
}

proof fn lemma_step_ok(st: BuildState, ev: XmlTokenV)
    requires
        state_ok(st),
    ensures
        state_ok(step(st, ev)),
{
    match ev {
        XmlTokenV::Start(name, attributes) => {
            let n = MxNodeV { name, value: None, attributes, children: Seq::empty() };
            assert(values_ok(n));
            let nx = step(st, ev);
            assert forall|i: int| 0 <= i < nx.stack.len() implies values_ok(#[trigger] nx.stack[i]) by {
                if i < st.stack.len() {
                    assert(nx.stack[i] == st.stack[i]);
                }
            }
        },
        XmlTokenV::Text(t) => {
            if st.stack.len() > 0 && trim(t).len() > 0 {
                let top = st.stack.last();
                assert(values_ok(top));
                lemma_trim_edges(t);
                let w = trim(t);
                let n = add_text(top, w);
                if let Some(v) = top.value {
                    assert((v + w)[0] == v[0]);
                    assert((v + w).last() == w.last());
                }
                assert(values_ok(n));
                let nx = step(st, ev);
                assert forall|i: int| 0 <= i < nx.stack.len() implies values_ok(#[trigger] nx.stack[i]) by {
                    if i < st.stack.len() - 1 {
                        assert(nx.stack[i] == st.stack[i]);
                    }
                }
            }
        },
        XmlTokenV::End => {
            if st.stack.len() > 1 {
                let rest = st.stack.drop_last();
                let parent = rest.last();
                let node = st.stack.last();
                assert(values_ok(parent));
                assert(values_ok(node));
                lemma_forest_push(parent.children, node);
                assert(values_ok(add_child(parent, node)));
                let nx = step(st, ev);
                assert forall|i: int| 0 <= i < nx.stack.len() implies values_ok(#[trigger] nx.stack[i]) by {
                    if i < rest.len() - 1 {
                        assert(nx.stack[i] == st.stack[i]);
                    }
                }
            } else if st.stack.len() == 1 {
                assert(values_ok(st.stack[0]));
            }
        },
        XmlTokenV::Other => {},
    }
}

proof fn lemma_run_ok(evs: Seq<XmlTokenV>)
    ensures
        state_ok(run(evs)),
    decreases evs.len(),
{
    if evs.len() > 0 {
        lemma_run_ok(evs.drop_last());
        lemma_step_ok(run(evs.drop_last()), evs.last());
    }
}

/// Every node of a parsed tree has no value, or a value that is not empty and
/// has no white space at its ends (so it is its own trim): blank text never
/// becomes a value.
pub proof fn lemma_parsed_values_trimmed(xml: Seq<char>)
    ensures
        spec_parse_tree(xml) matches Some(t) ==> values_ok(t),
{
    if let Some(evs) = xml_events(xml) {
        lemma_run_ok(evs);
    }
}

/// The value of an optional node.
pub open spec fn opt_tree(o: Option<MxNode>) -> Option<MxNodeV> {
    match o {
        Some(n) => Some(n@),
        None => None,
    }
}

fn leaf(name: String, attributes: Vec<(String, String)>) -> (n: MxNode)
    ensures
        n@ == (MxNodeV { name: name@, value: None, attributes: attrs_view(attributes@), children: Seq::empty() }),
{
    let n = MxNode { name, value: None, attributes, children: Vec::new() };
    assert(n@.children =~= Seq::<MxNodeV>::empty());
    n
}

fn with_text(node: MxNode, text: String) -> (r: MxNode)
    ensures
        r@ == add_text(node@, text@),
{
    let MxNode { name, value, attributes, children } = node;
    let value = match value {
        Some(mut v) => {
            v.append(text.as_str());
            Some(v)
        },
        None => Some(text),
    };
    let r = MxNode { name, value, attributes, children };
    assert(r@.children =~= node@.children);
    r
}

fn with_child(node: MxNode, child: MxNode) -> (r: MxNode)
    ensures
        r@ == add_child(node@, child@),
{
    let MxNode { name, value, attributes, mut children } = node;
    children.push(child);
    let r = MxNode { name, value, attributes, children };
    proof {
        lemma_children_view(r);
        lemma_children_view(node);
    }
    assert(r@.children =~= node@.children.push(child@));
    r
}

/// Builds the tree of an event stream.
pub fn build_from_events(events: Vec<XmlToken>) -> (r: Option<MxNode>)
    ensures
        opt_tree(r) == build_tree(token_views(events@)),
{
    let ghost evs = token_views(events@);
    let mut stack: Vec<MxNode> = Vec::new();
    let mut root: Option<MxNode> = None;
    let mut i: usize = 0;
    let mut events = events;
    let n = events.len();
    let mut rev: Vec<XmlToken> = Vec::new();
    while events.len() > 0
        invariant
            events@.len() + rev@.len() == n,
            token_views(events@) + token_views(rev@).reverse() == evs,
        decreases events.len(),
    {
        let t = events.pop().unwrap();
        rev.push(t);
        assert(token_views(events@) + token_views(rev@).reverse() =~= evs);
    }
    assert(token_views(rev@).reverse() =~= evs);
    assert(nodes_view(stack@) =~= run(evs.subrange(0, 0)).stack);
    while rev.len() > 0
        invariant
            i + rev@.len() == n,
            n == evs.len(),
            token_views(rev@).reverse() == evs.subrange(i as int, n as int),
            nodes_view(stack@) == run(evs.subrange(0, i as int)).stack,
            opt_tree(root) == run(evs.subrange(0, i as int)).root,
        decreases rev.len(),
    {
        let ghost before = run(evs.subrange(0, i as int));
        let ghost old_rev = token_views(rev@);
        let t = rev.pop().unwrap();
        assert(token_views(rev@) =~= old_rev.drop_last());
        assert forall|k: int| 0 <= k < rev@.len() implies #[trigger] token_views(rev@).reverse()[k] == evs.subrange(i + 1, n as int)[k] by {
            assert(old_rev.reverse()[k + 1] == evs.subrange(i as int, n as int)[k + 1]);
        }
        assert(t@ == evs[i as int]) by {
            assert(evs.subrange(i as int, n as int)[0] == evs[i as int]);
        }
        assert(evs.subrange(0, i + 1).drop_last() =~= evs.subrange(0, i as int));
        assert(token_views(rev@).reverse() =~= evs.subrange(i + 1, n as int));
        match t {
            XmlToken::Start(name, attributes) => {
                stack.push(leaf(name, attributes));
                assert(nodes_view(stack@) =~= step(before, evs[i as int]).stack);
            },
            XmlToken::Text(text) => {
                let tt = trimmed_string(chars_of(text.as_str()).as_slice());
                if stack.len() > 0 && !tt.as_str().is_empty() {
                    let top = stack.pop().unwrap();
                    stack.push(with_text(top, tt));
                    assert(nodes_view(stack@) =~= step(before, evs[i as int]).stack);
                }
            },
            XmlToken::End => {
                if stack.len() > 0 {
                    let node = stack.pop().unwrap();
                    if stack.len() > 0 {
                        let parent = stack.pop().unwrap();
                        stack.push(with_child(parent, node));
                        assert(nodes_view(stack@) =~= step(before, evs[i as int]).stack);
                    } else {
                        root = Some(node);
                        assert(nodes_view(stack@) =~= step(before, evs[i as int]).stack);
                    }
                }
            },
            XmlToken::Other => {},
        }
        i = i + 1;
    }
    assert(evs.subrange(0, n as int) =~= evs);
    root
}

impl MxNode {
    /// Parse XML into a tree, returning the root element (e.g. `Document` or
    /// `AppHdr`). Returns `None` if the XML has no element or is malformed.
    pub fn parse(xml: &str) -> (r: Option<MxNode>)
        ensures
            opt_tree(r) == spec_parse_tree(xml@),
    {
        match read_xml_events(xml) {
            Some(events) => build_from_events(events),
            None => None,
        }
    }
}

} // verus!

use vstd::prelude::*;
use vstd::string::*;

verus! {

// The engine works on a parsed markup tree. The tree is the library's own
// data type: an element has a tag name, attributes and children; a text node
// holds a run of character data. Whoever parses diagram files hands the
// engine a value of this type.

/// One attribute of a markup element: a name/value pair.
pub struct Attr {
    pub name: String,
    pub value: String,
}

/// A node of a markup tree.
pub enum Node {
    Element(Elem),
    Text(String),
}

/// An element node: tag name, attributes, children in document order.
pub struct Elem {
    pub name: String,
    pub attrs: Vec<Attr>,
    pub children: Vec<Node>,
}

// The mathematical model of a tree, used by every contract: names and text
// are sequences of characters, lists are sequences.

pub ghost struct SpecAttr {
    pub name: Seq<char>,
    pub value: Seq<char>,
}

pub ghost enum SpecNode {
    Element(SpecElem),
    Text(Seq<char>),
}

pub ghost struct SpecElem {
    pub name: Seq<char>,
    pub attrs: Seq<SpecAttr>,
    pub children: Seq<SpecNode>,
}

pub open spec fn attrs_model(s: Seq<Attr>) -> Seq<SpecAttr> {
    Seq::new(s.len(), |i: int| SpecAttr { name: s[i].name@, value: s[i].value@ })
}

pub open spec fn elem_model(e: Elem) -> SpecElem
    decreases e,
{
    SpecElem { name: e.name@, attrs: attrs_model(e.attrs@), children: nodes_model(e.children@) }
}

pub open spec fn nodes_model(ns: Seq<Node>) -> Seq<SpecNode>
    decreases ns,
{
    if ns.len() == 0 {
        Seq::empty()
    } else {
        nodes_model(ns.drop_last()).push(node_model(ns.last()))
    }
}

pub open spec fn node_model(n: Node) -> SpecNode
    decreases n,
{
    match n {
        Node::Element(e) => SpecNode::Element(elem_model(e)),
        Node::Text(t) => SpecNode::Text(t@),
    }
}

/// The model of a node list is the list of the models, pointwise.
pub proof fn lemma_nodes_model(ns: Seq<Node>)
    ensures
        nodes_model(ns).len() == ns.len(),
        forall|i: int| 0 <= i < ns.len() ==> #[trigger] nodes_model(ns)[i] == node_model(ns[i]),
    decreases ns,
{
    if ns.len() > 0 {
        lemma_nodes_model(ns.drop_last());
    }
}

// Attribute lookup and replacement, on the model.

/// Index of the first attribute named `name` at or after `from`.
pub open spec fn attr_idx_from(attrs: Seq<SpecAttr>, name: Seq<char>, from: int) -> Option<int>
    decreases attrs.len() - from
        when 0 <= from
{
    if from >= attrs.len() {
        None
    } else if attrs[from].name == name {
        Some(from)
    } else {
        attr_idx_from(attrs, name, from + 1)
    }
}

/// Value of the first attribute with the given name, if any.
pub open spec fn attr_value_m(attrs: Seq<SpecAttr>, name: Seq<char>) -> Option<Seq<char>> {
    match attr_idx_from(attrs, name, 0) {
        Some(j) => Some(attrs[j].value),
        None => None,
    }
}

/// Set the attribute: replace the first attribute of that name, or append a
/// new one when the element has none.
pub open spec fn set_attr_m(attrs: Seq<SpecAttr>, name: Seq<char>, value: Seq<char>) -> Seq<
    SpecAttr,
> {
    match attr_idx_from(attrs, name, 0) {
        Some(j) => attrs.update(j, SpecAttr { name: name, value: value }),
        None => attrs.push(SpecAttr { name: name, value: value }),
    }
}

// Finding element children.

/// Index of the first element child at or after `from` whose name is `name`.
pub open spec fn child_idx_named(ns: Seq<SpecNode>, name: Seq<char>, from: int) -> Option<int>
    decreases ns.len() - from
        when 0 <= from
{
    if from >= ns.len() {
        None
    } else if ns[from] matches SpecNode::Element(e) && e.name == name {
        Some(from)
    } else {
        child_idx_named(ns, name, from + 1)
    }
}

/// Index of the first node at or after `from` that is an element.
pub open spec fn elem_idx_from(ns: Seq<SpecNode>, from: int) -> Option<int>
    decreases ns.len() - from
        when 0 <= from
{
    if from >= ns.len() {
        None
    } else if ns[from] is Element {
        Some(from)
    } else {
        elem_idx_from(ns, from + 1)
    }
}

/// Index of the last node at or before `from` that is an element.
pub open spec fn elem_idx_before(ns: Seq<SpecNode>, from: int) -> Option<int>
    decreases from + 1
        when from < ns.len()
{
    if from < 0 {
        None
    } else if ns[from] is Element {
        Some(from)
    } else {
        elem_idx_before(ns, from - 1)
    }
}

// Inner text: the character data of a subtree, in document order.

pub open spec fn elem_text_m(e: SpecElem) -> Seq<char>
    decreases e, 0int,
{
    nodes_text_m(e.children, 0)
}

pub open spec fn nodes_text_m(ns: Seq<SpecNode>, from: int) -> Seq<char>
    decreases ns, ns.len() - from,
{
    if from < 0 || from >= ns.len() {
        Seq::empty()
    } else {
        node_text_m(ns[from]) + nodes_text_m(ns, from + 1)
    }
}

pub open spec fn node_text_m(n: SpecNode) -> Seq<char>
    decreases n, 1int,
{
    match n {
        SpecNode::Element(e) => elem_text_m(e),
        SpecNode::Text(t) => t,
    }
}

// Executable counterparts, each proved against the model.

/// Character-wise string equality.
pub fn str_eq(a: &str, b: &str) -> (r: bool)
    ensures
        r == (a@ == b@),
{
    let la = a.unicode_len();
    let lb = b.unicode_len();
    if la != lb {
        proof {
            assert(a@ != b@);
        }
        return false;
    }
    for i in 0..la
        invariant
            la == a@.len(),
            la == b@.len(),
            forall|k: int| 0 <= k < i ==> a@[k] == b@[k],
    {
        if a.get_char(i) != b.get_char(i) {
            proof {
                assert(a@[i as int] != b@[i as int]);
            }
            return false;
        }
    }
    proof {
        assert(a@ =~= b@);
    }
    true
}

/// Does the element carry this tag name?
pub fn name_is(e: &Elem, n: &str) -> (r: bool)
    ensures
        r == (elem_model(*e).name == n@),
{
    str_eq(e.name.as_str(), n)
}

/// Deep copy of an attribute list.
pub fn copy_attrs(v: &Vec<Attr>) -> (r: Vec<Attr>)
    ensures
        attrs_model(r@) == attrs_model(v@),
{
    let mut out: Vec<Attr> = Vec::new();
    for j in 0..v.len()
        invariant
            out@.len() == j,
            forall|k: int|
                0 <= k < j ==> (#[trigger] out@[k]).name@ == v@[k].name@ && out@[k].value@
                    == v@[k].value@,
    {
        let a = Attr { name: v[j].name.clone(), value: v[j].value.clone() };
        out.push(a);
    }
    proof {
        assert(attrs_model(out@) =~= attrs_model(v@));
    }
    out
}

/// Deep copy of an element.
pub fn copy_elem(e: &Elem) -> (r: Elem)
    ensures
        elem_model(r) == elem_model(*e),
    decreases *e, 0int,
{
    let mut cs: Vec<Node> = Vec::new();
    let n = e.children.len();
    for j in 0..n
        invariant
            n == e.children.len(),
            cs@.len() == j,
            forall|k: int|
                0 <= k < j ==> #[trigger] node_model(cs@[k]) == node_model(e.children@[k]),
    {
        let c = copy_node(&e.children[j]);
        cs.push(c);
    }
    proof {
        lemma_nodes_model(cs@);
        lemma_nodes_model(e.children@);
        assert(nodes_model(cs@) =~= nodes_model(e.children@));
    }
    Elem { name: e.name.clone(), attrs: copy_attrs(&e.attrs), children: cs }
}

/// Deep copy of a node.
pub fn copy_node(n: &Node) -> (r: Node)
    ensures
        node_model(r) == node_model(*n),
    decreases *n, 1int,
{
    match n {
        Node::Element(e) => Node::Element(copy_elem(e)),
        Node::Text(t) => Node::Text(t.clone()),
    }
}

/// First element child named `n`, searching at or after `from`.
pub fn find_child_named(e: &Elem, n: &str, from: usize) -> (r: Option<usize>)
    ensures
        match r {
            Some(j) => from <= j < e.children@.len() && child_idx_named(
                elem_model(*e).children,
                n@,
                from as int,
            ) == Some(j as int) && e.children@[j as int] is Element,
            None => child_idx_named(elem_model(*e).children, n@, from as int) is None,
        },
    decreases e.children@.len() - from,
{
    proof {
        lemma_nodes_model(e.children@);
    }
    if from >= e.children.len() {
        return None;
    }
    match &e.children[from] {
        Node::Element(c) => {
            if str_eq(c.name.as_str(), n) {
                return Some(from);
            }
        },
        Node::Text(_) => {},
    }
    find_child_named(e, n, from + 1)
}

/// Value of the first attribute of `e` named `n`, if any.
pub fn get_attr(e: &Elem, n: &str) -> (r: Option<String>)
    ensures
        match r {
            Some(v) => attr_value_m(elem_model(*e).attrs, n@) == Some(v@),
            None => attr_value_m(elem_model(*e).attrs, n@) is None,
        },
{
    let m = e.attrs.len();
    for j in 0..m
        invariant
            m == e.attrs@.len(),
            attr_idx_from(attrs_model(e.attrs@), n@, 0) == attr_idx_from(
                attrs_model(e.attrs@),
                n@,
                j as int,
            ),
    {
        proof {
            assert(attrs_model(e.attrs@)[j as int].name == e.attrs@[j as int].name@);
        }
        if str_eq(e.attrs[j].name.as_str(), n) {
            return Some(e.attrs[j].value.clone());
        }
    }
    None
}

/// Set an attribute on a copy of the attribute list: replace the first
/// attribute of that name, or append one.
pub fn set_attr(v: &Vec<Attr>, n: &str, value: &str) -> (r: Vec<Attr>)
    ensures
        attrs_model(r@) == set_attr_m(attrs_model(v@), n@, value@),
{
    let mut out = copy_attrs(v);
    let m = out.len();
    for j in 0..m
        invariant
            m == out@.len(),
            attrs_model(out@) == attrs_model(v@),
            attr_idx_from(attrs_model(v@), n@, 0) == attr_idx_from(attrs_model(v@), n@, j as int),
    {
        proof {
            assert(attrs_model(out@)[j as int].name == out@[j as int].name@);
        }
        if str_eq(out[j].name.as_str(), n) {
            let a = Attr { name: String::from_str(n), value: String::from_str(value) };
            out.set(j, a);
            proof {
                assert(attrs_model(out@) =~= set_attr_m(attrs_model(v@), n@, value@));
            }
            return out;
        }
    }
    let a = Attr { name: String::from_str(n), value: String::from_str(value) };
    out.push(a);
    proof {
        assert(attrs_model(out@) =~= set_attr_m(attrs_model(v@), n@, value@));
    }
    out
}

/// Inner text of an element: its text descendants concatenated in document
/// order, emitted exactly as they stand in the tree.
pub fn elem_text(e: &Elem) -> (r: String)
    ensures
        r@ == elem_text_m(elem_model(*e)),
    decreases *e, 0int,
{
    proof {
        lemma_nodes_model(e.children@);
    }
    let mut out = String::new();
    let n = e.children.len();
    for j in 0..n
        invariant
            n == e.children@.len(),
            nodes_model(e.children@).len() == n,
            forall|k: int|
                0 <= k < n ==> #[trigger] nodes_model(e.children@)[k] == node_model(
                    e.children@[k],
                ),
            out@ == nodes_text_prefix(nodes_model(e.children@), j as int),
    {
        proof {
            lemma_nodes_text_prefix(nodes_model(e.children@), j as int);
        }
        match &e.children[j] {
            Node::Element(c) => {
                let t = elem_text(c);
                out.append(t.as_str());
            },
            Node::Text(t) => {
                out.append(t.as_str());
            },
        }
    }
    proof {
        lemma_nodes_text_prefix(nodes_model(e.children@), n as int);
        assert(nodes_text_m(nodes_model(e.children@), n as int) =~= Seq::<char>::empty());
        assert(out@ =~= elem_text_m(elem_model(*e)));
    }
    out
}

/// Text of the first `upto` children.
pub open spec fn nodes_text_prefix(ns: Seq<SpecNode>, upto: int) -> Seq<char>
    decreases upto
        when upto <= ns.len()
{
    if upto <= 0 {
        Seq::empty()
    } else {
        nodes_text_prefix(ns, upto - 1) + node_text_m(ns[upto - 1])
    }
}

/// Splitting the whole text at a prefix boundary.
pub proof fn lemma_nodes_text_prefix(ns: Seq<SpecNode>, upto: int)
    requires
        0 <= upto <= ns.len(),
    ensures
        nodes_text_prefix(ns, upto) + nodes_text_m(ns, upto) =~= nodes_text_m(ns, 0),
    decreases upto,
{
    if upto == 0 {
        assert(nodes_text_prefix(ns, 0) + nodes_text_m(ns, 0) =~= nodes_text_m(ns, 0));
    } else {
        lemma_nodes_text_prefix(ns, upto - 1);
        assert(nodes_text_prefix(ns, upto) + nodes_text_m(ns, upto) =~= nodes_text_prefix(
            ns,
            upto - 1,
        ) + (node_text_m(ns[upto - 1]) + nodes_text_m(ns, upto)));
        assert(node_text_m(ns[upto - 1]) + nodes_text_m(ns, upto) =~= nodes_text_m(ns, upto - 1));
    }
}

/// Where the first element child of a name stands: it is in range, it is an
/// element of that name, and no earlier position holds one.
pub proof fn lemma_child_idx(ns: Seq<SpecNode>, name: Seq<char>, from: int)
    requires
        0 <= from,
    ensures
        match child_idx_named(ns, name, from) {
            Some(j) => from <= j < ns.len() && (ns[j] matches SpecNode::Element(c) && c.name
                == name) && forall|k: int|
                from <= k < j ==> !(#[trigger] ns[k] matches SpecNode::Element(c2) && c2.name
                    == name),
            None => forall|k: int|
                from <= k < ns.len() ==> !(#[trigger] ns[k] matches SpecNode::Element(c2)
                    && c2.name == name),
        },
    decreases ns.len() - from,
{
    if from < ns.len() && !(ns[from] matches SpecNode::Element(c) && c.name == name) {
        lemma_child_idx(ns, name, from + 1);
    }
}

/// Where the first attribute of a name stands: before it no attribute has
/// the name; at it the name matches.
pub proof fn lemma_attr_idx(attrs: Seq<SpecAttr>, name: Seq<char>, from: int)
    requires
        0 <= from,
    ensures
        match attr_idx_from(attrs, name, from) {
            Some(j) => from <= j < attrs.len() && attrs[j].name == name && forall|k: int|
                from <= k < j ==> (#[trigger] attrs[k]).name != name,
            None => forall|k: int| from <= k < attrs.len() ==> (#[trigger] attrs[k]).name != name,
        },
    decreases attrs.len() - from,
{
    if from < attrs.len() && attrs[from].name != name {
        lemma_attr_idx(attrs, name, from + 1);
    }
}

/// Setting an attribute makes its value readable back.
pub proof fn lemma_set_attr_value(attrs: Seq<SpecAttr>, name: Seq<char>, value: Seq<char>)
    ensures
        attr_value_m(set_attr_m(attrs, name, value), name) == Some(value),
{
    lemma_attr_idx(attrs, name, 0);
    let s2 = set_attr_m(attrs, name, value);
    lemma_attr_idx(s2, name, 0);
    match attr_idx_from(attrs, name, 0) {
        Some(j) => {
            assert(s2[j].name == name);
            match attr_idx_from(s2, name, 0) {
                Some(j2) => {
                    if j2 < j {
                        assert(s2[j2] == attrs[j2]);
                        assert(false);
                    }
                    if j2 > j {
                        assert(s2[j].name != name);
                        assert(false);
                    }
                },
                None => {
                    assert(s2[j].name != name);
                    assert(false);
                },
            }
        },
        None => {
            let j = attrs.len() as int;
            assert(s2[j].name == name);
            match attr_idx_from(s2, name, 0) {
                Some(j2) => {
                    if j2 < j {
                        assert(s2[j2] == attrs[j2]);
                        assert(false);
                    }
                },
                None => {
                    assert(s2[j].name != name);
                    assert(false);
                },
            }
        },
    }
}

/// Setting one attribute leaves every other attribute's value unchanged.
pub proof fn lemma_set_attr_other(
    attrs: Seq<SpecAttr>,
    name: Seq<char>,
    value: Seq<char>,
    other: Seq<char>,
)
    requires
        other != name,
    ensures
        attr_value_m(set_attr_m(attrs, name, value), other) == attr_value_m(attrs, other),
{
    lemma_attr_idx(attrs, name, 0);
    lemma_attr_idx(attrs, other, 0);
    let s2 = set_attr_m(attrs, name, value);
    lemma_attr_idx(s2, other, 0);
    let ghost nj: int = match attr_idx_from(attrs, name, 0) {
        Some(j) => j,
        None => attrs.len() as int,
    };
    // s2 agrees with attrs everywhere but at nj, whose name (before and
    // after) is never `other`.
    assert(forall|k: int|
        0 <= k < s2.len() && k != nj ==> #[trigger] s2[k] == attrs[k]);
    assert(nj < s2.len() ==> s2[nj].name == name);
    assert(nj < attrs.len() ==> attrs[nj].name == name);
    match attr_idx_from(attrs, other, 0) {
        Some(oj) => {
            assert(s2[oj].name == other);
            match attr_idx_from(s2, other, 0) {
                Some(oj2) => {
                    if oj2 < oj {
                        assert(attrs[oj2].name != other);
                        assert(false);
                    }
                    if oj2 > oj {
                        assert(s2[oj].name != other);
                        assert(false);
                    }
                    assert(s2[oj2].value == attrs[oj].value);
                },
                None => {
                    assert(s2[oj].name != other);
                    assert(false);
                },
            }
        },
        None => {
            match attr_idx_from(s2, other, 0) {
                Some(oj2) => {
                    assert(s2[oj2].name == other);
                    assert(oj2 != nj);
                    assert(attrs[oj2].name != other);
                    assert(false);
                },
                None => {},
            }
        },
    }
}

} // verus!

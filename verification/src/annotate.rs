use vstd::prelude::*;
use vstd::string::*;
use crate::records::{MissingReference, SpecMissing, StructuralViolation, ids_model, known_contains, known_has, missings_model};
use crate::template::{fill_expr, fill_expr_m};
use crate::text::{normalize, normalize_seq, trim, trim_seq};
use crate::tree::{Attr, Elem, Node, SpecAttr, SpecElem, SpecNode, attrs_model, child_idx_named, copy_attrs, copy_elem, elem_idx_before, elem_idx_from, elem_model, elem_text, elem_text_m, find_child_named, lemma_nodes_model, name_is, node_model, nodes_model, set_attr, set_attr_m};

verus! {

// Pass 1: label discovery and shape annotation.
//
// Each skill is drawn as a rectangle shape whose next element sibling is a
// group holding the label, behind a fixed nesting path:
// switch, then foreignObject, then three nested div containers, the innermost
// of which holds the label text. A shape with no next element sibling, or a
// sibling without the nested path, breaks the export convention and is a
// fatal structural violation.
//
// The pass walks the tree in document order. For every shape whose label
// normalizes to a non-empty identifier it sets the "skill" style class and a
// placeholder fill color on the shape, records a missing-reference diagnostic
// when the identifier matches no known skill, and appends a transient marker
// element to the label container so that pass 2 can rewrite exactly that
// container without re-deriving the label.

/// Tag name on the fixed nesting path, by level below the group.
pub open spec fn path_name(level: int) -> Seq<char> {
    if level == 0 {
        "switch"@
    } else if level == 1 {
        "foreignObject"@
    } else {
        "div"@
    }
}

pub fn path_name_at(level: usize) -> (r: &'static str)
    ensures
        r@ == path_name(level as int),
{
    if level == 0 {
        "switch"
    } else if level == 1 {
        "foreignObject"
    } else {
        "div"
    }
}

/// Descend the fixed nesting path from a group element: at each level the
/// first element child with the level's tag name. Five levels down stands the
/// label container.
pub open spec fn locate_m(e: SpecElem, level: int) -> Option<SpecElem>
    decreases 5 - level
        when level <= 5
{
    if level >= 5 {
        Some(e)
    } else {
        match child_idx_named(e.children, path_name(level), 0) {
            None => None,
            Some(j) => match e.children[j] {
                SpecNode::Element(c) => locate_m(c, level + 1),
                SpecNode::Text(_) => None,
            },
        }
    }
}

/// The transient marker element carrying a shape's canonical identifier.
/// It exists only between the two passes and never reaches the output.
pub open spec fn marker_m(id: Seq<char>) -> SpecNode {
    SpecNode::Element(
        SpecElem {
            name: "marker"@,
            attrs: seq![SpecAttr { name: "identifier"@, value: id }],
            children: Seq::empty(),
        },
    )
}

/// Append the marker to the label container behind the fixed nesting path.
/// Where the path does not resolve, the element is left unchanged (the pass
/// only marks groups whose path was already walked successfully).
pub open spec fn mark_m(e: SpecElem, level: int, id: Seq<char>) -> SpecElem
    decreases 5 - level
        when level <= 5
{
    if level >= 5 {
        SpecElem { children: e.children.push(marker_m(id)), ..e }
    } else {
        match child_idx_named(e.children, path_name(level), 0) {
            None => e,
            Some(j) => match e.children[j] {
                SpecNode::Element(c) => SpecElem {
                    children: e.children.update(j, SpecNode::Element(mark_m(c, level + 1, id))),
                    ..e
                },
                SpecNode::Text(_) => e,
            },
        }
    }
}

/// The shape that a sibling group belongs to: the nearest preceding element
/// sibling, when it is a rectangle shape with no other element in between.
pub open spec fn group_source_m(ns: Seq<SpecNode>, i: int) -> Option<int> {
    match elem_idx_before(ns, i - 1) {
        Some(k) => match ns[k] {
            SpecNode::Element(g) => if g.name == "rect"@ {
                Some(k)
            } else {
                None
            },
            SpecNode::Text(_) => None,
        },
        None => None,
    }
}

/// Label discovery for the shape at index `k` of a sibling list: find the
/// next element sibling, descend the fixed path, read the trimmed label and
/// normalize it. `Err` is a structural violation; `Ok(None)` a decorative
/// shape whose identifier is empty; `Ok(Some((id, label)))` a skill shape.
pub open spec fn shape_info_m(ns: Seq<SpecNode>, k: int) -> Result<
    Option<(Seq<char>, Seq<char>)>,
    (),
> {
    match elem_idx_from(ns, k + 1) {
        None => Err(()),
        Some(j) => match ns[j] {
            SpecNode::Element(g) => match locate_m(g, 0) {
                None => Err(()),
                Some(container) => {
                    let label = trim_seq(elem_text_m(container));
                    let id = normalize_seq(label);
                    if id.len() == 0 {
                        Ok(None)
                    } else {
                        Ok(Some((id, label)))
                    }
                },
            },
            SpecNode::Text(_) => Err(()),
        },
    }
}

/// The shape role of the node at index `i`: when it is a rectangle shape with
/// a non-empty identifier, stamp the style class and the placeholder fill
/// color, and record a diagnostic when the identifier matches no known skill.
pub open spec fn rect_result_m(
    e: SpecElem,
    ns: Seq<SpecNode>,
    i: int,
    e2: SpecElem,
    ms1: Seq<SpecMissing>,
    known: Seq<Seq<char>>,
    pkg: Seq<char>,
    tab: Seq<char>,
) -> Result<(SpecNode, Seq<SpecMissing>), ()> {
    if e.name == "rect"@ {
        match shape_info_m(ns, i) {
            Err(u) => Err(u),
            Ok(None) => Ok((SpecNode::Element(e2), ms1)),
            Ok(Some(p)) => {
                let e3 = SpecElem {
                    attrs: set_attr_m(
                        set_attr_m(e2.attrs, "class"@, "skill"@),
                        "fill"@,
                        fill_expr_m(p.0),
                    ),
                    ..e2
                };
                let ms0: Seq<SpecMissing> = if known_has(known, p.0) {
                    Seq::empty()
                } else {
                    seq![
                        SpecMissing {
                            package_identifier: pkg,
                            tab_identifier: tab,
                            raw_label: p.1,
                        },
                    ]
                };
                Ok((SpecNode::Element(e3), ms0 + ms1))
            },
        }
    } else {
        Ok((SpecNode::Element(e2), ms1))
    }
}

/// Annotate the node at index `i` of a sibling list: recurse into its
/// subtree, then mark it when it is the label group of a preceding shape,
/// then stamp it when it is itself a shape.
pub open spec fn annotate_at_m(
    ns: Seq<SpecNode>,
    i: int,
    known: Seq<Seq<char>>,
    pkg: Seq<char>,
    tab: Seq<char>,
) -> Result<(SpecNode, Seq<SpecMissing>), ()>
    decreases ns, ns.len() - i, 0int
        when 0 <= i < ns.len()
{
    match ns[i] {
        SpecNode::Text(t) => Ok((SpecNode::Text(t), Seq::empty())),
        SpecNode::Element(e) => match annotate_elem_m(e, known, pkg, tab) {
            Err(u) => Err(u),
            Ok(q) => match group_source_m(ns, i) {
                Some(k) => match shape_info_m(ns, k) {
                    Err(u) => Err(u),
                    Ok(info) => {
                        let e2 = match info {
                            Some(p) => mark_m(q.0, 0, p.0),
                            None => q.0,
                        };
                        rect_result_m(e, ns, i, e2, q.1, known, pkg, tab)
                    },
                },
                None => rect_result_m(e, ns, i, q.0, q.1, known, pkg, tab),
            },
        },
    }
}

/// Annotate the tail of a sibling list from index `i` on, in document order.
pub open spec fn annotate_nodes_m(
    ns: Seq<SpecNode>,
    i: int,
    known: Seq<Seq<char>>,
    pkg: Seq<char>,
    tab: Seq<char>,
) -> Result<(Seq<SpecNode>, Seq<SpecMissing>), ()>
    decreases ns, ns.len() - i, 1int
        when 0 <= i
{
    if i >= ns.len() {
        Ok((Seq::empty(), Seq::empty()))
    } else {
        match annotate_at_m(ns, i, known, pkg, tab) {
            Err(u) => Err(u),
            Ok(h) => match annotate_nodes_m(ns, i + 1, known, pkg, tab) {
                Err(u) => Err(u),
                Ok(rest) => Ok((seq![h.0] + rest.0, h.1 + rest.1)),
            },
        }
    }
}

/// Annotate a whole element: its children, as one sibling list.
pub open spec fn annotate_elem_m(
    e: SpecElem,
    known: Seq<Seq<char>>,
    pkg: Seq<char>,
    tab: Seq<char>,
) -> Result<(SpecElem, Seq<SpecMissing>), ()>
    decreases e, 0int, 0int,
{
    match annotate_nodes_m(e.children, 0, known, pkg, tab) {
        Err(u) => Err(u),
        Ok(q) => Ok((SpecElem { children: q.0, ..e }, q.1)),
    }
}

// Executable pass 1, proved against the model above.

/// Last element sibling strictly before index `below`, if any.
fn prev_elem_idx(ns: &Vec<Node>, below: usize) -> (r: Option<usize>)
    requires
        below <= ns@.len(),
    ensures
        match r {
            Some(k) => k < below && elem_idx_before(nodes_model(ns@), below as int - 1) == Some(
                k as int,
            ) && ns@[k as int] is Element,
            None => elem_idx_before(nodes_model(ns@), below as int - 1) is None,
        },
    decreases below,
{
    proof {
        lemma_nodes_model(ns@);
    }
    if below == 0 {
        None
    } else {
        match &ns[below - 1] {
            Node::Element(_) => Some(below - 1),
            Node::Text(_) => prev_elem_idx(ns, below - 1),
        }
    }
}

/// First element sibling at or after index `from`, if any.
fn next_elem_idx(ns: &Vec<Node>, from: usize) -> (r: Option<usize>)
    requires
        from <= ns@.len(),
    ensures
        match r {
            Some(j) => from <= j < ns@.len() && elem_idx_from(nodes_model(ns@), from as int)
                == Some(j as int) && ns@[j as int] is Element,
            None => elem_idx_from(nodes_model(ns@), from as int) is None,
        },
    decreases ns@.len() - from,
{
    proof {
        lemma_nodes_model(ns@);
    }
    if from >= ns.len() {
        None
    } else {
        match &ns[from] {
            Node::Element(_) => Some(from),
            Node::Text(_) => next_elem_idx(ns, from + 1),
        }
    }
}

/// Walk the fixed nesting path below a group element.
pub fn locate(e: &Elem, level: usize) -> (r: Option<&Elem>)
    requires
        level <= 5,
    ensures
        match r {
            Some(c) => locate_m(elem_model(*e), level as int) == Some(elem_model(*c)),
            None => locate_m(elem_model(*e), level as int) is None,
        },
    decreases 5 - level,
{
    if level >= 5 {
        return Some(e);
    }
    proof {
        lemma_nodes_model(e.children@);
    }
    match find_child_named(e, path_name_at(level), 0) {
        None => None,
        Some(j) => match &e.children[j] {
            Node::Element(c) => locate(c, level + 1),
            Node::Text(_) => {
                proof {
                    assert(false);
                }
                None
            },
        },
    }
}

/// Build the transient marker element for an identifier.
fn marker_node(id: &str) -> (r: Node)
    ensures
        node_model(r) == marker_m(id@),
{
    let attrs = vec![Attr { name: String::from_str("identifier"), value: String::from_str(id) }];
    let e = Elem { name: String::from_str("marker"), attrs, children: Vec::new() };
    proof {
        assert(attrs_model(e.attrs@) =~= seq![SpecAttr { name: "identifier"@, value: id@ }]);
        assert(nodes_model(e.children@) =~= Seq::<SpecNode>::empty());
    }
    Node::Element(e)
}

/// Append the marker to the label container behind the fixed nesting path,
/// on a copy of the group element.
pub fn mark(e: &Elem, level: usize, id: &str) -> (r: Elem)
    requires
        level <= 5,
    ensures
        elem_model(r) == mark_m(elem_model(*e), level as int, id@),
    decreases 5 - level,
{
    proof {
        lemma_nodes_model(e.children@);
    }
    if level >= 5 {
        let mut e2 = copy_elem(e);
        let ghost before = e2.children@;
        let m = marker_node(id);
        e2.children.push(m);
        proof {
            assert(e2.children@.drop_last() =~= before);
            assert(nodes_model(e2.children@) == nodes_model(before).push(marker_m(id@)));
        }
        e2
    } else {
        match find_child_named(e, path_name_at(level), 0) {
            None => copy_elem(e),
            Some(j) => {
                let sub: Elem;
                match &e.children[j] {
                    Node::Element(c) => {
                        sub = mark(c, level + 1, id);
                    },
                    Node::Text(_) => {
                        proof {
                            assert(false);
                        }
                        sub = copy_elem(e);
                    },
                }
                let mut e2 = copy_elem(e);
                let ghost before = e2.children@;
                proof {
                    lemma_nodes_model(before);
                    assert(nodes_model(before).len() == nodes_model(e.children@).len());
                    assert(before.len() == e.children@.len());
                }
                e2.children.set(j, Node::Element(sub));
                proof {
                    lemma_nodes_model(before);
                    lemma_nodes_model(e2.children@);
                    assert(nodes_model(e2.children@) =~= nodes_model(e.children@).update(
                        j as int,
                        SpecNode::Element(elem_model(sub)),
                    ));
                }
                e2
            },
        }
    }
}

/// Label discovery for the shape at index `k`: next element sibling, fixed
/// path, trimmed label, canonical identifier.
pub fn shape_info(ns: &Vec<Node>, k: usize, pkg: &str, tab: &str) -> (r: Result<
    Option<(String, String)>,
    StructuralViolation,
>)
    requires
        k < ns@.len(),
    ensures
        ({
            let sm = shape_info_m(nodes_model(ns@), k as int);
            match r {
                Ok(Some(p)) => sm matches Ok(Some(q)) && q.0 == p.0@ && q.1 == p.1@,
                Ok(None) => sm matches Ok(None),
                Err(v) => sm is Err && v.package_identifier@ == pkg@ && v.tab_identifier@ == tab@,
            }
        }),
{
    proof {
        lemma_nodes_model(ns@);
    }
    let n = ns.len();
    match next_elem_idx(ns, k + 1) {
        None => Err(
            StructuralViolation {
                package_identifier: String::from_str(pkg),
                tab_identifier: String::from_str(tab),
            },
        ),
        Some(j) => match &ns[j] {
            Node::Element(g) => match locate(g, 0) {
                None => Err(
                    StructuralViolation {
                        package_identifier: String::from_str(pkg),
                        tab_identifier: String::from_str(tab),
                    },
                ),
                Some(container) => {
                    let t = elem_text(container);
                    let label = trim(t.as_str());
                    let id = normalize(label.as_str());
                    if id.unicode_len() == 0 {
                        Ok(None)
                    } else {
                        Ok(Some((id, label)))
                    }
                },
            },
            Node::Text(_) => {
                proof {
                    assert(false);
                }
                Err(
                    StructuralViolation {
                        package_identifier: String::from_str(pkg),
                        tab_identifier: String::from_str(tab),
                    },
                )
            },
        },
    }
}

/// The shape that the element at index `i` labels, if it is a label group.
fn group_source(ns: &Vec<Node>, i: usize) -> (r: Option<usize>)
    requires
        i < ns@.len(),
    ensures
        match r {
            Some(k) => k < i && group_source_m(nodes_model(ns@), i as int) == Some(k as int),
            None => group_source_m(nodes_model(ns@), i as int) is None,
        },
{
    proof {
        lemma_nodes_model(ns@);
    }
    match prev_elem_idx(ns, i) {
        None => None,
        Some(k) => match &ns[k] {
            Node::Element(g) => {
                if name_is(g, "rect") {
                    Some(k)
                } else {
                    None
                }
            },
            Node::Text(_) => {
                proof {
                    assert(false);
                }
                None
            },
        },
    }
}

/// Annotate the node at index `i` of a sibling list.
fn annotate_at(ns: &Vec<Node>, i: usize, known: &Vec<String>, pkg: &str, tab: &str) -> (r: Result<
    (Node, Vec<MissingReference>),
    StructuralViolation,
>)
    requires
        i < ns@.len(),
    ensures
        ({
            let sm = annotate_at_m(nodes_model(ns@), i as int, ids_model(known@), pkg@, tab@);
            match r {
                Ok(p) => sm matches Ok(q) && node_model(p.0) == q.0 && missings_model(p.1@) == q.1,
                Err(v) => sm is Err && v.package_identifier@ == pkg@ && v.tab_identifier@ == tab@,
            }
        }),
    decreases *ns, ns@.len() - i, 0int,
{
    proof {
        lemma_nodes_model(ns@);
    }
    match &ns[i] {
        Node::Text(t) => {
            let r = Node::Text(t.clone());
            proof {
                assert(missings_model(Seq::empty()) =~= Seq::<SpecMissing>::empty());
            }
            Ok((r, Vec::new()))
        },
        Node::Element(e) => {
            match annotate_elem(e, known, pkg, tab) {
                Err(v) => Err(v),
                Ok((e1, ms1)) => {
                    let e2: Elem;
                    match group_source(ns, i) {
                        Some(k) => {
                            match shape_info(ns, k, pkg, tab) {
                                Err(v) => {
                                    return Err(v);
                                },
                                Ok(Some(p)) => {
                                    e2 = mark(&e1, 0, p.0.as_str());
                                },
                                Ok(None) => {
                                    e2 = e1;
                                },
                            }
                        },
                        None => {
                            e2 = e1;
                        },
                    }
                    if name_is(e, "rect") {
                        match shape_info(ns, i, pkg, tab) {
                            Err(v) => Err(v),
                            Ok(None) => Ok((Node::Element(e2), ms1)),
                            Ok(Some(p)) => {
                                let attrs2 = set_attr(&e2.attrs, "class", "skill");
                                let fe = fill_expr(p.0.as_str());
                                let attrs3 = set_attr(&attrs2, "fill", fe.as_str());
                                let e3 = Elem {
                                    name: e2.name,
                                    attrs: attrs3,
                                    children: e2.children,
                                };
                                let mut ms: Vec<MissingReference> = Vec::new();
                                if !known_contains(known, &p.0) {
                                    ms.push(
                                        MissingReference {
                                            package_identifier: String::from_str(pkg),
                                            tab_identifier: String::from_str(tab),
                                            raw_label: p.1,
                                        },
                                    );
                                }
                                let ghost msa = missings_model(ms@);
                                let ghost msb = missings_model(ms1@);
                                let mut ms1v = ms1;
                                ms.append(&mut ms1v);
                                proof {
                                    assert(missings_model(ms@) =~= msa + msb);
                                }
                                Ok((Node::Element(e3), ms))
                            },
                        }
                    } else {
                        Ok((Node::Element(e2), ms1))
                    }
                },
            }
        },
    }
}

/// Annotate the tail of a sibling list from index `i` on.
fn annotate_nodes(ns: &Vec<Node>, i: usize, known: &Vec<String>, pkg: &str, tab: &str) -> (r:
    Result<(Vec<Node>, Vec<MissingReference>), StructuralViolation>)
    ensures
        ({
            let sm = annotate_nodes_m(nodes_model(ns@), i as int, ids_model(known@), pkg@, tab@);
            match r {
                Ok(p) => sm matches Ok(q) && nodes_model(p.0@) == q.0 && missings_model(p.1@)
                    == q.1,
                Err(v) => sm is Err && v.package_identifier@ == pkg@ && v.tab_identifier@ == tab@,
            }
        }),
    decreases *ns, ns@.len() - i, 1int,
{
    proof {
        lemma_nodes_model(ns@);
    }
    if i >= ns.len() {
        proof {
            assert(missings_model(Seq::empty()) =~= Seq::<SpecMissing>::empty());
            assert(nodes_model(Seq::empty()) =~= Seq::<SpecNode>::empty());
        }
        return Ok((Vec::new(), Vec::new()));
    }
    match annotate_at(ns, i, known, pkg, tab) {
        Err(v) => Err(v),
        Ok((n2, ms0)) => {
            match annotate_nodes(ns, i + 1, known, pkg, tab) {
                Err(v) => Err(v),
                Ok((rest, mrest)) => {
                    let ghost n2m = node_model(n2);
                    let ghost rest_view = rest@;
                    let ghost ms0m = missings_model(ms0@);
                    let ghost mrestm = missings_model(mrest@);
                    let mut out = rest;
                    out.insert(0, n2);
                    let mut ms = ms0;
                    let mut mrest2 = mrest;
                    ms.append(&mut mrest2);
                    proof {
                        lemma_nodes_model(out@);
                        lemma_nodes_model(rest_view);
                        assert(nodes_model(out@) =~= seq![n2m] + nodes_model(rest_view));
                        assert(missings_model(ms@) =~= ms0m + mrestm);
                    }
                    Ok((out, ms))
                },
            }
        },
    }
}

/// Annotate a whole element subtree: pass 1 over its children in document
/// order. `Err` reports a structural violation naming the package and tab.
pub fn annotate_elem(e: &Elem, known: &Vec<String>, pkg: &str, tab: &str) -> (r: Result<
    (Elem, Vec<MissingReference>),
    StructuralViolation,
>)
    ensures
        ({
            let sm = annotate_elem_m(elem_model(*e), ids_model(known@), pkg@, tab@);
            match r {
                Ok(p) => sm matches Ok(q) && elem_model(p.0) == q.0 && missings_model(p.1@) == q.1,
                Err(v) => sm is Err && v.package_identifier@ == pkg@ && v.tab_identifier@ == tab@,
            }
        }),
    decreases *e, 0int, 0int,
{
    match annotate_nodes(&e.children, 0, known, pkg, tab) {
        Err(v) => Err(v),
        Ok((cs, ms)) => {
            let e2 = Elem { name: e.name.clone(), attrs: copy_attrs(&e.attrs), children: cs };
            Ok((e2, ms))
        },
    }
}

} // verus!

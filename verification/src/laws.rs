use vstd::prelude::*;
use crate::annotate::{annotate_at_m, annotate_elem_m, annotate_nodes_m, locate_m, mark_m, marker_m, path_name, shape_info_m};
use crate::inject::{control_m, has_marker_m, inject_elem_m, inject_node_m, inject_nodes_m, lemma_inject_nodes, marker_id_m};
use crate::text::trim_seq;
use crate::records::known_has;
use crate::template::fill_expr_m;
use crate::tree::{SpecElem, SpecNode, attr_value_m, child_idx_named, elem_text_m, lemma_child_idx, lemma_set_attr_other, lemma_set_attr_value, node_text_m, nodes_text_m};

verus! {

// Laws of the engine, each proved from the contracts the passes verify
// against.

/// Number of skill shapes in a subtree whose identifier is non-empty and
/// matches no known skill: the shapes that owe one diagnostic each.
pub open spec fn unresolved_in_elem(e: SpecElem, known: Seq<Seq<char>>) -> nat
    decreases e, 0int, 0int,
{
    unresolved_in_nodes(e.children, 0, known)
}

pub open spec fn unresolved_in_nodes(ns: Seq<SpecNode>, i: int, known: Seq<Seq<char>>) -> nat
    decreases ns, ns.len() - i, 1int
        when 0 <= i
{
    if i >= ns.len() {
        0
    } else {
        unresolved_at(ns, i, known) + unresolved_in_nodes(ns, i + 1, known)
    }
}

pub open spec fn unresolved_at(ns: Seq<SpecNode>, i: int, known: Seq<Seq<char>>) -> nat
    decreases ns, ns.len() - i, 0int
        when 0 <= i < ns.len()
{
    (match ns[i] {
        SpecNode::Element(e) => unresolved_in_elem(e, known),
        SpecNode::Text(_) => 0,
    }) + if ns[i] matches SpecNode::Element(e) && e.name == "rect"@ && (shape_info_m(ns, i)
        matches Ok(Some(p)) && !known_has(known, p.0)) {
        1nat
    } else {
        0nat
    }
}

/// One diagnostic per unresolved skill shape: when a diagram is processed
/// successfully, the missing-reference sequence holds exactly one record for
/// each shape whose identifier is non-empty and matches no known skill, and
/// none for shapes whose identifier is empty.
pub proof fn lemma_missing_count(
    e: SpecElem,
    known: Seq<Seq<char>>,
    pkg: Seq<char>,
    tab: Seq<char>,
)
    ensures
        annotate_elem_m(e, known, pkg, tab) matches Ok(q) ==> q.1.len() == unresolved_in_elem(
            e,
            known,
        ),
    decreases e, 0int, 0int,
{
    if annotate_elem_m(e, known, pkg, tab) is Ok {
        lemma_missing_count_nodes(e.children, 0, known, pkg, tab);
    }
}

proof fn lemma_missing_count_nodes(
    ns: Seq<SpecNode>,
    i: int,
    known: Seq<Seq<char>>,
    pkg: Seq<char>,
    tab: Seq<char>,
)
    requires
        0 <= i,
    ensures
        annotate_nodes_m(ns, i, known, pkg, tab) matches Ok(q) ==> q.1.len()
            == unresolved_in_nodes(ns, i, known),
    decreases ns, ns.len() - i, 1int,
{
    if i < ns.len() && annotate_nodes_m(ns, i, known, pkg, tab) is Ok {
        lemma_missing_count_at(ns, i, known, pkg, tab);
        lemma_missing_count_nodes(ns, i + 1, known, pkg, tab);
    }
}

proof fn lemma_missing_count_at(
    ns: Seq<SpecNode>,
    i: int,
    known: Seq<Seq<char>>,
    pkg: Seq<char>,
    tab: Seq<char>,
)
    requires
        0 <= i < ns.len(),
    ensures
        annotate_at_m(ns, i, known, pkg, tab) matches Ok(h) ==> h.1.len() == unresolved_at(
            ns,
            i,
            known,
        ),
    decreases ns, ns.len() - i, 0int,
{
    match ns[i] {
        SpecNode::Text(_) => {},
        SpecNode::Element(e) => {
            if annotate_at_m(ns, i, known, pkg, tab) is Ok {
                lemma_missing_count(e, known, pkg, tab);
            }
        },
    }
}

/// The same count, at the whole-diagram entry point: a successfully processed
/// diagram yields exactly one missing-reference record per unresolved,
/// non-empty-identifier shape.
pub proof fn lemma_tabparse_missing_count(
    root: SpecElem,
    known: Seq<Seq<char>>,
    pkg: Seq<char>,
    tab: Seq<char>,
)
    ensures
        crate::emit::tabparse_m(root, known, pkg, tab) matches Ok(q) ==> q.1.len()
            == unresolved_in_elem(root, known),
{
    lemma_missing_count(root, known, pkg, tab);
}

// Annotation completeness: every skill shape in the input whose identifier
// is non-empty stands, at the same position of the annotated output, as an
// element carrying the "skill" style class and the conditional fill-color
// placeholder for exactly its identifier.

/// The annotated counterpart of the shape at index `i`: where the input node
/// is a rectangle shape whose label resolves to a non-empty identifier, the
/// output node carries the "skill" class and the fill placeholder for that
/// identifier.
pub open spec fn shape_annotated(ns: Seq<SpecNode>, i: int, out: SpecNode) -> bool {
    ns[i] matches SpecNode::Element(e) ==> (e.name == "rect"@ ==> (shape_info_m(ns, i) matches Ok(
        Some(p),
    ) ==> (out matches SpecNode::Element(o) && attr_value_m(o.attrs, "class"@) == Some("skill"@)
        && attr_value_m(o.attrs, "fill"@) == Some(fill_expr_m(p.0)))))
}

/// Pass 1 output discipline at one position: the shape annotation holds, and
/// an element's subtree obeys the same discipline against its own input
/// subtree.
pub open spec fn ann_ok_at(ns: Seq<SpecNode>, i: int, out: SpecNode) -> bool
    decreases ns, 0int
        when 0 <= i < ns.len()
{
    &&& (ns[i] matches SpecNode::Element(ce) ==> (out matches SpecNode::Element(co)
        && ann_ok_nodes(ce.children, co.children)))
    &&& shape_annotated(ns, i, out)
}

/// Pass 1 output discipline for a sibling list: positions correspond (the
/// output may hold appended markers beyond them).
pub open spec fn ann_ok_nodes(ns: Seq<SpecNode>, out: Seq<SpecNode>) -> bool
    decreases ns, 1int,
{
    &&& out.len() >= ns.len()
    &&& forall|i: int| 0 <= i < ns.len() ==> ann_ok_at(ns, i, #[trigger] out[i])
}

/// Marking a label container deep below an element does not disturb the
/// discipline: names, attributes and positions stay; only a marker is added.
proof fn lemma_mark_ann(ns0: Seq<SpecNode>, e: SpecElem, level: int, id: Seq<char>)
    requires
        0 <= level <= 5,
        ann_ok_nodes(ns0, e.children),
    ensures
        ann_ok_nodes(ns0, mark_m(e, level, id).children),
    decreases 5 - level,
{
    let cs = e.children;
    let cs2 = mark_m(e, level, id).children;
    if level >= 5 {
        assert forall|i: int| 0 <= i < ns0.len() implies ann_ok_at(ns0, i, #[trigger] cs2[i]) by {
            assert(cs2[i] == cs[i]);
            assert(ann_ok_at(ns0, i, cs[i]));
        }
    } else {
        lemma_child_idx(cs, crate::annotate::path_name(level), 0);
        match child_idx_named(cs, crate::annotate::path_name(level), 0) {
            None => {},
            Some(j) => {
                match cs[j] {
                    SpecNode::Element(c) => {
                        let c2 = mark_m(c, level + 1, id);
                        assert forall|i: int| 0 <= i < ns0.len() implies ann_ok_at(
                            ns0,
                            i,
                            #[trigger] cs2[i],
                        ) by {
                            assert(ann_ok_at(ns0, i, cs[i]));
                            if i == j {
                                match ns0[i] {
                                    SpecNode::Element(ce) => {
                                        lemma_mark_ann(ce.children, c, level + 1, id);
                                        assert(cs2[i] == SpecNode::Element(c2));
                                        assert(c2.attrs == c.attrs);
                                    },
                                    SpecNode::Text(_) => {},
                                }
                            } else {
                                assert(cs2[i] == cs[i]);
                            }
                        }
                    },
                    SpecNode::Text(_) => {},
                }
            },
        }
    }
}

/// Annotation completeness for a whole diagram (the law itself): where pass 1
/// succeeds, its output obeys the discipline above at every position of every
/// sibling list, against the input tree.
pub proof fn lemma_annotation_complete(
    e: SpecElem,
    known: Seq<Seq<char>>,
    pkg: Seq<char>,
    tab: Seq<char>,
)
    ensures
        annotate_elem_m(e, known, pkg, tab) matches Ok(q) ==> ann_ok_nodes(
            e.children,
            q.0.children,
        ),
    decreases e, 0int, 0int,
{
    if annotate_elem_m(e, known, pkg, tab) is Ok {
        lemma_ann_nodes(e.children, 0, known, pkg, tab);
    }
}

proof fn lemma_ann_nodes(
    ns: Seq<SpecNode>,
    i: int,
    known: Seq<Seq<char>>,
    pkg: Seq<char>,
    tab: Seq<char>,
)
    requires
        0 <= i <= ns.len(),
    ensures
        annotate_nodes_m(ns, i, known, pkg, tab) matches Ok(q) ==> q.0.len() == ns.len() - i
            && forall|k: int|
            0 <= k < ns.len() - i ==> ann_ok_at(ns, i + k, #[trigger] q.0[k]),
    decreases ns, ns.len() - i, 1int,
{
    if i < ns.len() && annotate_nodes_m(ns, i, known, pkg, tab) is Ok {
        lemma_ann_at(ns, i, known, pkg, tab);
        lemma_ann_nodes(ns, i + 1, known, pkg, tab);
        let q = annotate_nodes_m(ns, i, known, pkg, tab)->Ok_0;
        let h = annotate_at_m(ns, i, known, pkg, tab)->Ok_0;
        let rest = annotate_nodes_m(ns, i + 1, known, pkg, tab)->Ok_0;
        assert forall|k: int| 0 <= k < ns.len() - i implies ann_ok_at(
            ns,
            i + k,
            #[trigger] q.0[k],
        ) by {
            if k == 0 {
                assert(q.0[0] == h.0);
            } else {
                assert(q.0[k] == rest.0[k - 1]);
                assert(ann_ok_at(ns, (i + 1) + (k - 1), rest.0[k - 1]));
            }
        }
    }
}

proof fn lemma_ann_at(
    ns: Seq<SpecNode>,
    i: int,
    known: Seq<Seq<char>>,
    pkg: Seq<char>,
    tab: Seq<char>,
)
    requires
        0 <= i < ns.len(),
    ensures
        annotate_at_m(ns, i, known, pkg, tab) matches Ok(h) ==> ann_ok_at(ns, i, h.0),
    decreases ns, ns.len() - i, 0int,
{
    if annotate_at_m(ns, i, known, pkg, tab) is Ok {
        let h = annotate_at_m(ns, i, known, pkg, tab)->Ok_0;
        match ns[i] {
            SpecNode::Text(_) => {},
            SpecNode::Element(e) => {
                lemma_annotation_complete(e, known, pkg, tab);
                let q = annotate_elem_m(e, known, pkg, tab)->Ok_0;
                let e1 = q.0;
                assert(ann_ok_nodes(e.children, e1.children));
                let e2 = match crate::annotate::group_source_m(ns, i) {
                    Some(k) => match shape_info_m(ns, k) {
                        Ok(Some(p)) => mark_m(e1, 0, p.0),
                        _ => e1,
                    },
                    None => e1,
                };
                match crate::annotate::group_source_m(ns, i) {
                    Some(k) => match shape_info_m(ns, k) {
                        Ok(Some(p)) => {
                            lemma_mark_ann(e.children, e1, 0, p.0);
                        },
                        _ => {},
                    },
                    None => {},
                }
                assert(ann_ok_nodes(e.children, e2.children));
                assert(e2.attrs == e1.attrs);
                if e.name == "rect"@ {
                    match shape_info_m(ns, i) {
                        Ok(Some(p)) => {
                            let fx = fill_expr_m(p.0);
                            lemma_set_attr_value(e2.attrs, "class"@, "skill"@);
                            lemma_set_attr_value(
                                crate::tree::set_attr_m(e2.attrs, "class"@, "skill"@),
                                "fill"@,
                                fx,
                            );
                            reveal_strlit("class");
                            reveal_strlit("fill");
                            assert("class"@.len() == 5);
                            assert("fill"@.len() == 4);
                            lemma_set_attr_other(
                                crate::tree::set_attr_m(e2.attrs, "class"@, "skill"@),
                                "fill"@,
                                fx,
                                "class"@,
                            );
                        },
                        _ => {},
                    }
                }
            },
        }
    }
}

// Control injection completeness: once pass 1 has marked a label group's
// container for an identifier, pass 2 replaces exactly that container with
// the control fragment bound to the same identifier and the container's own
// trimmed label text. Stated for groups whose subtree holds no literal
// `marker` elements: the marker name is reserved for the engine's transient
// bookkeeping.

pub open spec fn marker_free_elem(e: SpecElem) -> bool
    decreases e, 0int,
{
    e.name != "marker"@ && marker_free_nodes(e.children, 0)
}

pub open spec fn marker_free_nodes(ns: Seq<SpecNode>, i: int) -> bool
    decreases ns, ns.len() - i
        when 0 <= i
{
    if i >= ns.len() {
        true
    } else {
        marker_free_node(ns[i]) && marker_free_nodes(ns, i + 1)
    }
}

pub open spec fn marker_free_node(n: SpecNode) -> bool
    decreases n, 1int,
{
    match n {
        SpecNode::Element(e) => marker_free_elem(e),
        SpecNode::Text(_) => true,
    }
}

proof fn lemma_marker_free_pointwise(ns: Seq<SpecNode>, i: int)
    requires
        0 <= i,
        marker_free_nodes(ns, i),
    ensures
        forall|k: int| i <= k < ns.len() ==> marker_free_node(#[trigger] ns[k]),
    decreases ns.len() - i,
{
    if i < ns.len() {
        lemma_marker_free_pointwise(ns, i + 1);
    }
}

/// A marker-free child list has no direct marker child.
proof fn lemma_no_direct_marker(ns: Seq<SpecNode>)
    requires
        marker_free_nodes(ns, 0),
    ensures
        child_idx_named(ns, "marker"@, 0) is None,
{
    lemma_marker_free_pointwise(ns, 0);
    lemma_child_idx(ns, "marker"@, 0);
    match child_idx_named(ns, "marker"@, 0) {
        Some(j) => {
            assert(marker_free_node(ns[j]));
            assert(false);
        },
        None => {},
    }
}

/// No name on the fixed nesting path is the marker name.
proof fn lemma_path_name_not_marker(level: int)
    ensures
        path_name(level) != "marker"@,
{
    reveal_strlit("switch");
    reveal_strlit("foreignObject");
    reveal_strlit("div");
    reveal_strlit("marker");
    assert("switch"@[0] == 's' && "marker"@[0] == 'm');
    assert("foreignObject"@.len() == 13 && "marker"@.len() == 6);
    assert("div"@.len() == 3);
}

/// Appending a node appends its text.
proof fn lemma_nodes_text_push(ns: Seq<SpecNode>, x: SpecNode, i: int)
    requires
        0 <= i <= ns.len(),
    ensures
        nodes_text_m(ns.push(x), i) =~= nodes_text_m(ns, i) + node_text_m(x),
    decreases ns.len() - i,
{
    if i < ns.len() {
        lemma_nodes_text_push(ns, x, i + 1);
        assert(ns.push(x)[i] == ns[i]);
    } else {
        assert(ns.push(x)[i] == x);
        assert(nodes_text_m(ns.push(x), i + 1) =~= Seq::<char>::empty());
    }
}

/// Marking below `level` adds no direct marker child and changes no name.
proof fn lemma_mark_no_direct_marker(e: SpecElem, level: int, id: Seq<char>)
    requires
        0 <= level <= 4,
        marker_free_nodes(e.children, 0),
    ensures
        child_idx_named(mark_m(e, level, id).children, "marker"@, 0) is None,
{
    lemma_marker_free_pointwise(e.children, 0);
    let cs2 = mark_m(e, level, id).children;
    lemma_child_idx(e.children, path_name(level), 0);
    lemma_child_idx(cs2, "marker"@, 0);
    lemma_path_name_not_marker(level + 1);
    match child_idx_named(cs2, "marker"@, 0) {
        Some(j2) => {
            match child_idx_named(e.children, path_name(level), 0) {
                None => {
                    assert(cs2[j2] == e.children[j2]);
                    assert(marker_free_node(e.children[j2]));
                    assert(false);
                },
                Some(j) => {
                    match e.children[j] {
                        SpecNode::Element(c) => {
                            if j2 == j {
                                assert(cs2[j2] == SpecNode::Element(
                                    mark_m(c, level + 1, id),
                                ));
                                assert(mark_m(c, level + 1, id).name == c.name);
                                assert(c.name == path_name(level));
                                assert(false);
                            } else {
                                assert(cs2[j2] == e.children[j2]);
                                assert(marker_free_node(e.children[j2]));
                                assert(false);
                            }
                        },
                        SpecNode::Text(_) => {
                            assert(cs2[j2] == e.children[j2]);
                            assert(marker_free_node(e.children[j2]));
                            assert(false);
                        },
                    }
                },
            }
        },
        None => {},
    }
}

/// The marked container: exactly one marker child, carrying the identifier,
/// and the container's text unchanged.
proof fn lemma_marked_container(c: SpecElem, id: Seq<char>)
    requires
        marker_free_nodes(c.children, 0),
    ensures
        has_marker_m(mark_m(c, 5, id)),
        marker_id_m(mark_m(c, 5, id)) == id,
        elem_text_m(mark_m(c, 5, id)) == elem_text_m(c),
    decreases 0int,
{
    lemma_marker_free_pointwise(c.children, 0);
    let c2 = mark_m(c, 5, id);
    assert(c2.children == c.children.push(marker_m(id)));
    let ln = c.children.len() as int;
    lemma_child_idx(c2.children, "marker"@, 0);
    match child_idx_named(c2.children, "marker"@, 0) {
        None => {
            assert(c2.children[ln] == marker_m(id));
            assert(false);
        },
        Some(j) => {
            if j < ln {
                assert(c2.children[j] == c.children[j]);
                assert(marker_free_node(c.children[j]));
                assert(false);
            }
            assert(j == ln);
            assert(c2.children[j] == marker_m(id));
            match marker_m(id) {
                SpecNode::Element(me) => {
                    assert(me.attrs[0].name == "identifier"@);
                    assert(crate::tree::attr_idx_from(me.attrs, "identifier"@, 0) == Some(0int));
                    assert(attr_value_m(me.attrs, "identifier"@) == Some(id));
                },
                SpecNode::Text(_) => {
                    assert(false);
                },
            }
        },
    }
    lemma_nodes_text_push(c.children, marker_m(id), 0);
    assert(nodes_text_m(marker_m(id)->Element_0.children, 0) =~= Seq::<char>::empty());
    assert(elem_text_m(c2) =~= elem_text_m(c));
}

/// Injecting a marker-free element keeps its name (it is not replaced).
proof fn lemma_inject_keeps_name(e: SpecElem)
    requires
        marker_free_nodes(e.children, 0),
    ensures
        inject_node_m(SpecNode::Element(e)) == SpecNode::Element(inject_elem_m(e)),
        inject_elem_m(e).name == e.name,
{
    lemma_no_direct_marker(e.children);
}

/// The walk of the fixed path, after marking and injection: at every level
/// the same child is taken, and at the bottom stands the control fragment.
proof fn lemma_control_path(g: SpecElem, c: SpecElem, id: Seq<char>, level: int)
    requires
        0 <= level <= 4,
        locate_m(g, level) == Some(c),
        marker_free_nodes(g.children, 0),
    ensures
        locate_m(inject_elem_m(mark_m(g, level, id)), level) == Some(
            control_m(id, trim_seq(elem_text_m(c))),
        ),
    decreases 4 - level,
{
    lemma_marker_free_pointwise(g.children, 0);
    lemma_child_idx(g.children, path_name(level), 0);
    let j = child_idx_named(g.children, path_name(level), 0)->Some_0;
    let gm = mark_m(g, level, id);
    let gi = inject_elem_m(gm);
    lemma_inject_nodes(gm.children, 0);
    match g.children[j] {
        SpecNode::Element(gc) => {
            let gcm = mark_m(gc, level + 1, id);
            assert(gm.children == g.children.update(j, SpecNode::Element(gcm)));
            // the child the path takes after marking and injection
            let y: SpecNode;
            if level == 4 {
                // gc is the label container itself
                assert(locate_m(gc, 5) == Some(gc));
                assert(c == gc);
                lemma_marked_container(gc, id);
                y = SpecNode::Element(control_m(id, trim_seq(elem_text_m(c))));
                assert(inject_node_m(SpecNode::Element(gcm)) == y);
            } else {
                lemma_mark_no_direct_marker(gc, level + 1, id);
                assert(!has_marker_m(gcm));
                y = SpecNode::Element(inject_elem_m(gcm));
                assert(inject_node_m(SpecNode::Element(gcm)) == y);
                lemma_control_path(gc, c, id, level + 1);
            }
            assert(gi.children[j] == y);
            // no earlier child of the injected list carries the path name
            assert forall|k: int| 0 <= k < j implies !(#[trigger] gi.children[k]
                matches SpecNode::Element(c2) && c2.name == path_name(level)) by {
                assert(gm.children[k] == g.children[k]);
                assert(gi.children[k] == inject_node_m(g.children[k]));
                match g.children[k] {
                    SpecNode::Element(ek) => {
                        assert(marker_free_node(g.children[k]));
                        lemma_inject_keeps_name(ek);
                        assert(!(ek.name == path_name(level)));
                    },
                    SpecNode::Text(_) => {},
                }
            }
            lemma_child_idx(gi.children, path_name(level), 0);
            match child_idx_named(gi.children, path_name(level), 0) {
                None => {
                    if level == 4 {
                        assert(gi.children[j] matches SpecNode::Element(cc) && cc.name
                            == path_name(level));
                    } else {
                        match y {
                            SpecNode::Element(yy) => {
                                assert(yy.name == gc.name);
                            },
                            SpecNode::Text(_) => {
                                assert(false);
                            },
                        }
                    }
                    assert(false);
                },
                Some(j3) => {
                    if j3 < j {
                        assert(false);
                    }
                    if j3 > j {
                        match y {
                            SpecNode::Element(yy) => {
                                assert(yy.name == path_name(level));
                            },
                            SpecNode::Text(_) => {
                                assert(false);
                            },
                        }
                        assert(false);
                    }
                    assert(j3 == j);
                    if level == 4 {
                        assert(locate_m(control_m(id, trim_seq(elem_text_m(c))), 5) == Some(
                            control_m(id, trim_seq(elem_text_m(c))),
                        ));
                    }
                },
            }
        },
        SpecNode::Text(_) => {
            assert(false);
        },
    }
}

/// Control injection completeness (the law itself): for a label group whose
/// subtree holds no literal marker elements, once pass 1 has marked the
/// group's located label container for identifier `id`, pass 2 replaces
/// exactly that container with the control fragment for `id` and the
/// container's trimmed label text. The located container of the final output
/// is that fragment, which holds exactly one range control, bound to the same
/// identifier as the shape the group labels.
pub proof fn lemma_control_injection(g: SpecElem, c: SpecElem, id: Seq<char>)
    requires
        locate_m(g, 0) == Some(c),
        marker_free_nodes(g.children, 0),
    ensures
        locate_m(inject_elem_m(mark_m(g, 0, id)), 0) == Some(
            control_m(id, trim_seq(elem_text_m(c))),
        ),
{
    lemma_control_path(g, c, id, 0);
}

} // verus!

use vstd::prelude::*;
use vstd::string::*;
use crate::template::{cond_expr, cond_expr_m, href_m, href_of, onchange_m, onchange_of, oninput_m, oninput_of};
use crate::text::{trim, trim_seq};
use crate::tree::{Attr, Elem, Node, SpecAttr, SpecElem, SpecNode, attrs_model, attr_value_m, child_idx_named, copy_attrs, elem_model, elem_text, elem_text_m, find_child_named, get_attr, lemma_nodes_model, node_model, nodes_model};

verus! {

// Pass 2: control injection.
//
// After pass 1 has annotated the whole tree, every label container carries a
// transient marker child with the shape's canonical identifier. This pass
// walks the tree once more and replaces each marked container with the
// interactive control fragment for that identifier: the label as a link to
// the skill detail view, beside a range control bound to the skill's value
// placeholder. The marker itself never reaches the output.

/// Does this element hold a transient marker child?
pub open spec fn has_marker_m(e: SpecElem) -> bool {
    child_idx_named(e.children, "marker"@, 0) is Some
}

/// The identifier carried by the element's first marker child (empty when the
/// marker has no identifier attribute).
pub open spec fn marker_id_m(e: SpecElem) -> Seq<char> {
    match child_idx_named(e.children, "marker"@, 0) {
        Some(j) => match e.children[j] {
            SpecNode::Element(m) => match attr_value_m(m.attrs, "identifier"@) {
                Some(v) => v,
                None => Seq::empty(),
            },
            SpecNode::Text(_) => Seq::empty(),
        },
        None => Seq::empty(),
    }
}

/// The interactive control fragment that replaces a marked label container:
/// the label text as a link to the skill detail view, and a range control
/// (bounds 0 to 100) whose value is the skill's conditional placeholder, which
/// reports changes to the update endpoint and recolors the shape locally as
/// it moves.
pub open spec fn control_m(id: Seq<char>, label: Seq<char>) -> SpecElem {
    SpecElem {
        name: "div"@,
        attrs: seq![SpecAttr { name: "class"@, value: "skill-control"@ }],
        children: seq![
            SpecNode::Element(
                SpecElem {
                    name: "a"@,
                    attrs: seq![SpecAttr { name: "href"@, value: href_m(id) }],
                    children: seq![SpecNode::Text(label)],
                },
            ),
            SpecNode::Element(
                SpecElem {
                    name: "input"@,
                    attrs: seq![
                        SpecAttr { name: "type"@, value: "range"@ },
                        SpecAttr { name: "min"@, value: "0"@ },
                        SpecAttr { name: "max"@, value: "100"@ },
                        SpecAttr { name: "value"@, value: cond_expr_m(id) },
                        SpecAttr { name: "onchange"@, value: onchange_m(id) },
                        SpecAttr { name: "oninput"@, value: oninput_m() },
                    ],
                    children: Seq::empty(),
                },
            ),
        ],
    }
}

/// Inject controls below one node: a marked element becomes the control
/// fragment for its identifier and trimmed label text; any other element is
/// rewritten recursively; text is kept.
pub open spec fn inject_node_m(n: SpecNode) -> SpecNode
    decreases n, 0int,
{
    match n {
        SpecNode::Text(t) => SpecNode::Text(t),
        SpecNode::Element(e) => if has_marker_m(e) {
            SpecNode::Element(control_m(marker_id_m(e), trim_seq(elem_text_m(e))))
        } else {
            SpecNode::Element(inject_elem_m(e))
        },
    }
}

pub open spec fn inject_nodes_m(ns: Seq<SpecNode>, i: int) -> Seq<SpecNode>
    decreases ns, ns.len() - i
        when 0 <= i
{
    if i >= ns.len() {
        Seq::empty()
    } else {
        seq![inject_node_m(ns[i])] + inject_nodes_m(ns, i + 1)
    }
}

pub open spec fn inject_elem_m(e: SpecElem) -> SpecElem
    decreases e, 1int,
{
    SpecElem { children: inject_nodes_m(e.children, 0), ..e }
}

/// Pointwise description of the injected child list.
pub proof fn lemma_inject_nodes(ns: Seq<SpecNode>, i: int)
    requires
        0 <= i <= ns.len(),
    ensures
        inject_nodes_m(ns, i).len() == ns.len() - i,
        forall|k: int|
            0 <= k < ns.len() - i ==> #[trigger] inject_nodes_m(ns, i)[k] == inject_node_m(
                ns[i + k],
            ),
    decreases ns.len() - i,
{
    if i < ns.len() {
        lemma_inject_nodes(ns, i + 1);
    }
}

// Executable pass 2, proved against the model above.

/// The identifier carried by an element's marker child.
fn marker_ident(e: &Elem) -> (r: String)
    ensures
        r@ == marker_id_m(elem_model(*e)),
{
    proof {
        lemma_nodes_model(e.children@);
    }
    match find_child_named(e, "marker", 0) {
        None => String::new(),
        Some(j) => match &e.children[j] {
            Node::Element(m) => match get_attr(m, "identifier") {
                Some(v) => v,
                None => String::new(),
            },
            Node::Text(_) => {
                proof {
                    assert(false);
                }
                String::new()
            },
        },
    }
}

/// Build the control fragment for an identifier and its label text.
fn control_node(id: &str, label: &str) -> (r: Elem)
    ensures
        elem_model(r) == control_m(id@, label@),
{
    let link = Elem {
        name: String::from_str("a"),
        attrs: vec![Attr { name: String::from_str("href"), value: href_of(id) }],
        children: vec![Node::Text(String::from_str(label))],
    };
    proof {
        assert(attrs_model(link.attrs@) =~= control_m(id@, label@).children[0]->Element_0.attrs);
        lemma_nodes_model(link.children@);
        assert(nodes_model(link.children@) =~= seq![SpecNode::Text(label@)]);
    }
    let control = Elem {
        name: String::from_str("input"),
        attrs: vec![
            Attr { name: String::from_str("type"), value: String::from_str("range") },
            Attr { name: String::from_str("min"), value: String::from_str("0") },
            Attr { name: String::from_str("max"), value: String::from_str("100") },
            Attr { name: String::from_str("value"), value: cond_expr(id) },
            Attr { name: String::from_str("onchange"), value: onchange_of(id) },
            Attr { name: String::from_str("oninput"), value: oninput_of() },
        ],
        children: Vec::new(),
    };
    proof {
        assert(attrs_model(control.attrs@) =~= control_m(
            id@,
            label@,
        ).children[1]->Element_0.attrs);
        lemma_nodes_model(control.children@);
        assert(nodes_model(control.children@) =~= Seq::<SpecNode>::empty());
    }
    let r = Elem {
        name: String::from_str("div"),
        attrs: vec![Attr { name: String::from_str("class"), value: String::from_str("skill-control") }],
        children: vec![Node::Element(link), Node::Element(control)],
    };
    proof {
        assert(attrs_model(r.attrs@) =~= control_m(id@, label@).attrs);
        lemma_nodes_model(r.children@);
        assert(nodes_model(r.children@) =~= control_m(id@, label@).children);
    }
    r
}

/// Inject controls below one element: pass 2 over its whole subtree.
pub fn inject_elem(e: &Elem) -> (r: Elem)
    ensures
        elem_model(r) == inject_elem_m(elem_model(*e)),
    decreases *e,
{
    proof {
        lemma_nodes_model(e.children@);
        lemma_inject_nodes(elem_model(*e).children, 0);
    }
    let mut cs: Vec<Node> = Vec::new();
    let n = e.children.len();
    for j in 0..n
        invariant
            n == e.children@.len(),
            cs@.len() == j,
            nodes_model(e.children@).len() == n,
            forall|k: int|
                0 <= k < n ==> #[trigger] nodes_model(e.children@)[k] == node_model(
                    e.children@[k],
                ),
            forall|k: int|
                0 <= k < j ==> #[trigger] node_model(cs@[k]) == inject_node_m(
                    nodes_model(e.children@)[k],
                ),
    {
        match &e.children[j] {
            Node::Text(t) => {
                cs.push(Node::Text(t.clone()));
            },
            Node::Element(c) => {
                match find_child_named(c, "marker", 0) {
                    Some(_) => {
                        let id = marker_ident(c);
                        let t = elem_text(c);
                        let label = trim(t.as_str());
                        let ctrl = control_node(id.as_str(), label.as_str());
                        cs.push(Node::Element(ctrl));
                    },
                    None => {
                        let c2 = inject_elem(c);
                        cs.push(Node::Element(c2));
                    },
                }
            },
        }
    }
    proof {
        lemma_nodes_model(cs@);
        assert(nodes_model(cs@) =~= inject_nodes_m(elem_model(*e).children, 0));
    }
    Elem { name: e.name.clone(), attrs: copy_attrs(&e.attrs), children: cs }
}

} // verus!

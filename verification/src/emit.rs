use vstd::prelude::*;
use vstd::string::*;
use crate::annotate::{annotate_elem, annotate_elem_m};
use crate::inject::{inject_elem, inject_elem_m};
use crate::records::{MissingReference, SpecMissing, StructuralViolation, ids_model, missings_model};
use crate::template::{skill_skeleton, skill_skeleton_m, tab_skeleton, tab_skeleton_m};
use crate::text::{trim, trim_seq};
use crate::tree::{Attr, Elem, Node, SpecAttr, SpecElem, SpecNode, attrs_model, elem_model, lemma_nodes_model, nodes_model};

verus! {

// The template emitter: serialize the transformed tree back to markup text
// and wrap it in the page-level skeleton. The root element handed to the
// engine is the wrapper a generic tree parser puts around a fragment; only
// its children are serialized, which strips the wrapper.

/// Serialized attribute list from index `i` on: ` name="value"` for each.
pub open spec fn ser_attrs_m(attrs: Seq<SpecAttr>, i: int) -> Seq<char>
    decreases attrs.len() - i
        when 0 <= i
{
    if i >= attrs.len() {
        Seq::empty()
    } else {
        " "@ + attrs[i].name + "=\""@ + attrs[i].value + "\""@ + ser_attrs_m(attrs, i + 1)
    }
}

/// Serialized element: open tag with attributes, children, close tag.
pub open spec fn ser_elem_m(e: SpecElem) -> Seq<char>
    decreases e, 0int,
{
    "<"@ + e.name + ser_attrs_m(e.attrs, 0) + ">"@ + ser_nodes_m(e.children, 0) + "</"@ + e.name
        + ">"@
}

/// Serialized node list from index `i` on. Text is emitted exactly as it
/// stands in the tree.
pub open spec fn ser_nodes_m(ns: Seq<SpecNode>, i: int) -> Seq<char>
    decreases ns, ns.len() - i
        when 0 <= i
{
    if i >= ns.len() {
        Seq::empty()
    } else {
        (match ns[i] {
            SpecNode::Element(c) => ser_elem_m(c),
            SpecNode::Text(t) => t,
        }) + ser_nodes_m(ns, i + 1)
    }
}

fn ser_attrs(attrs: &Vec<Attr>, i: usize) -> (r: String)
    ensures
        r@ == ser_attrs_m(attrs_model(attrs@), i as int),
    decreases attrs@.len() - i,
{
    if i >= attrs.len() {
        return String::new();
    }
    let mut s = String::from_str(" ");
    s.append(attrs[i].name.as_str());
    s.append("=\"");
    s.append(attrs[i].value.as_str());
    s.append("\"");
    let rest = ser_attrs(attrs, i + 1);
    s.append(rest.as_str());
    proof {
        assert(attrs_model(attrs@)[i as int].name == attrs@[i as int].name@);
        assert(s@ =~= ser_attrs_m(attrs_model(attrs@), i as int));
    }
    s
}

/// Serialize one element subtree to markup text.
pub fn ser_elem(e: &Elem) -> (r: String)
    ensures
        r@ == ser_elem_m(elem_model(*e)),
    decreases *e, 0int,
{
    let mut s = String::from_str("<");
    s.append(e.name.as_str());
    let a = ser_attrs(&e.attrs, 0);
    s.append(a.as_str());
    s.append(">");
    let c = ser_nodes(&e.children, 0);
    s.append(c.as_str());
    s.append("</");
    s.append(e.name.as_str());
    s.append(">");
    proof {
        assert(s@ =~= ser_elem_m(elem_model(*e)));
    }
    s
}

/// Serialize a node list from index `i` on.
pub fn ser_nodes(ns: &Vec<Node>, i: usize) -> (r: String)
    ensures
        r@ == ser_nodes_m(nodes_model(ns@), i as int),
    decreases *ns, ns@.len() - i,
{
    proof {
        lemma_nodes_model(ns@);
    }
    if i >= ns.len() {
        return String::new();
    }
    let mut s: String;
    match &ns[i] {
        Node::Element(c) => {
            s = ser_elem(c);
        },
        Node::Text(t) => {
            s = t.clone();
        },
    }
    let rest = ser_nodes(ns, i + 1);
    s.append(rest.as_str());
    s
}

/// The whole transformation of one diagram: pass 1 (annotation and
/// diagnostics), pass 2 (control injection), then serialization of the root's
/// children, trimmed and wrapped in the tab page skeleton.
pub open spec fn tabparse_m(
    root: SpecElem,
    known: Seq<Seq<char>>,
    pkg: Seq<char>,
    tab: Seq<char>,
) -> Result<(Seq<char>, Seq<SpecMissing>), ()> {
    match annotate_elem_m(root, known, pkg, tab) {
        Err(u) => Err(u),
        Ok(q) => {
            let injected = inject_elem_m(q.0);
            let body = trim_seq(ser_nodes_m(injected.children, 0));
            Ok((tab_skeleton_m(body), q.1))
        },
    }
}

/// Transform one diagram tree into a tab's template artifact.
///
/// `root` is the fragment wrapper element holding the diagram; `known` the
/// identifiers of the loaded skills; `pkg` and `tab` name the diagram for
/// diagnostics. Returns the template artifact and the missing-reference
/// records for this diagram in document order, or the structural violation
/// that makes the diagram unusable.
pub fn tabparse(root: &Elem, known: &Vec<String>, pkg: &str, tab: &str) -> (r: Result<
    (String, Vec<MissingReference>),
    StructuralViolation,
>)
    ensures
        ({
            let sm = tabparse_m(elem_model(*root), ids_model(known@), pkg@, tab@);
            match r {
                Ok(p) => sm matches Ok(q) && p.0@ == q.0 && missings_model(p.1@) == q.1,
                Err(v) => sm is Err && v.package_identifier@ == pkg@ && v.tab_identifier@ == tab@,
            }
        }),
{
    match annotate_elem(root, known, pkg, tab) {
        Err(v) => Err(v),
        Ok((annotated, ms)) => {
            let injected = inject_elem(&annotated);
            let raw = ser_nodes(&injected.children, 0);
            let body = trim(raw.as_str());
            let content = tab_skeleton(body.as_str());
            Ok((content, ms))
        },
    }
}

/// What the external Markdown renderer returns for a given source text: a
/// fixed function of the text alone.
pub uninterp spec fn html_of_markdown(md: Seq<char>) -> Seq<char>;

/// Relies on comrak::markdown_to_html: renders CommonMark to HTML. With the
/// fixed default options the output depends on the Markdown text alone.
#[verifier::external_body]
fn render_markdown(md: &str) -> (r: String)
    ensures
        r@ == html_of_markdown(md@),
{
    comrak::markdown_to_html(md, &comrak::Options::default())
}

/// A skill page: the rendered Markdown inside the documentation skeleton.
pub open spec fn skill_page_m(md: Seq<char>) -> Seq<char> {
    skill_skeleton_m(html_of_markdown(md))
}

/// Build one skill page's template artifact from its Markdown source: render
/// the Markdown and wrap the result in the documentation page skeleton,
/// changing nothing else.
pub fn skillparse(content: &str) -> (r: String)
    ensures
        r@ == skill_page_m(content@),
{
    let html = render_markdown(content);
    skill_skeleton(html.as_str())
}

} // verus!

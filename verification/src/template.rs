use vstd::prelude::*;
use vstd::string::*;

verus! {

// The placeholder expressions the engine writes into template artifacts.
// They are resolved later by an external template renderer that understands
// `{{ expr }}` interpolation and `{% if %}/{% else %}/{% endif %}` blocks;
// this engine only emits the text.

/// Conditional placeholder for a skill's numeric value: the value of
/// `skills.<identifier>` when the render context has one, otherwise 0.
pub open spec fn cond_expr_m(id: Seq<char>) -> Seq<char> {
    "{% if skills."@ + id + " %}{{ skills."@ + id + " }}{% else %}0{% endif %}"@
}

/// Fill color for an annotated shape: an HSL color whose hue is the skill's
/// value (fallback 0) at fixed 50% saturation and 50% lightness.
pub open spec fn fill_expr_m(id: Seq<char>) -> Seq<char> {
    "hsl("@ + cond_expr_m(id) + ", 50%, 50%)"@
}

/// Link target of a skill label: the skill detail view.
pub open spec fn href_m(id: Seq<char>) -> Seq<char> {
    "/skill/"@ + id
}

/// Change handler of a control: report the new value for this skill to the
/// update endpoint, for the session in the render context.
pub open spec fn onchange_m(id: Seq<char>) -> Seq<char> {
    "fetch('/update?u={{ userurl }}&s="@ + id + "&v=' + this.value, {method: 'PUT'})"@
}

/// Input handler of a control: recolor the associated shape locally from the
/// slider value, with no network round trip.
pub open spec fn oninput_m() -> Seq<char> {
    "this.closest('g').previousElementSibling.setAttribute('fill', 'hsl(' + this.value + ', 50%, 50%)')"@
}

/// Page skeleton of a tab: the transformed markup inside the content block of
/// the user-facing layout.
pub open spec fn tab_skeleton_m(body: Seq<char>) -> Seq<char> {
    "{% extends \"user\" %}{% block content %}"@ + body + "{% endblock %}"@
}

/// Page skeleton of a skill page: the rendered Markdown inside the content
/// block of the documentation layout.
pub open spec fn skill_skeleton_m(body: Seq<char>) -> Seq<char> {
    "{% extends \"docs\" %}{% block content %}"@ + body + "{% endblock %}"@
}

pub fn cond_expr(id: &str) -> (r: String)
    ensures
        r@ == cond_expr_m(id@),
{
    let mut s = String::from_str("{% if skills.");
    s.append(id);
    s.append(" %}{{ skills.");
    s.append(id);
    s.append(" }}{% else %}0{% endif %}");
    proof {
        assert(s@ =~= cond_expr_m(id@));
    }
    s
}

pub fn fill_expr(id: &str) -> (r: String)
    ensures
        r@ == fill_expr_m(id@),
{
    let mut s = String::from_str("hsl(");
    let c = cond_expr(id);
    s.append(c.as_str());
    s.append(", 50%, 50%)");
    proof {
        assert(s@ =~= fill_expr_m(id@));
    }
    s
}

pub fn href_of(id: &str) -> (r: String)
    ensures
        r@ == href_m(id@),
{
    let mut s = String::from_str("/skill/");
    s.append(id);
    s
}

pub fn onchange_of(id: &str) -> (r: String)
    ensures
        r@ == onchange_m(id@),
{
    let mut s = String::from_str("fetch('/update?u={{ userurl }}&s=");
    s.append(id);
    s.append("&v=' + this.value, {method: 'PUT'})");
    proof {
        assert(s@ =~= onchange_m(id@));
    }
    s
}

pub fn oninput_of() -> (r: String)
    ensures
        r@ == oninput_m(),
{
    String::from_str(
        "this.closest('g').previousElementSibling.setAttribute('fill', 'hsl(' + this.value + ', 50%, 50%)')",
    )
}

pub fn tab_skeleton(body: &str) -> (r: String)
    ensures
        r@ == tab_skeleton_m(body@),
{
    let mut s = String::from_str("{% extends \"user\" %}{% block content %}");
    s.append(body);
    s.append("{% endblock %}");
    proof {
        assert(s@ =~= tab_skeleton_m(body@));
    }
    s
}

pub fn skill_skeleton(body: &str) -> (r: String)
    ensures
        r@ == skill_skeleton_m(body@),
{
    let mut s = String::from_str("{% extends \"docs\" %}{% block content %}");
    s.append(body);
    s.append("{% endblock %}");
    proof {
        assert(s@ =~= skill_skeleton_m(body@));
    }
    s
}

} // verus!

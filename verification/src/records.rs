use vstd::prelude::*;
use vstd::string::*;

verus! {

// The loaded data set. Skills, packages and tabs are built once at load time
// and are read-only afterwards; the missing-reference records are the
// diagnostics accumulated while the tabs were processed.

/// One documented skill: its canonical identifier and its finished page
/// template artifact.
#[derive(Debug, Clone)]
pub struct Skill {
    pub identifier: String,
    pub content: String,
}

/// One diagram tab: its identifier and its transformed, template-ready markup.
#[derive(Debug, Clone)]
pub struct Tab {
    pub identifier: String,
    pub content: String,
}

/// One package: a grouping of tabs.
#[derive(Debug, Clone)]
pub struct Package {
    pub identifier: String,
    pub tabs: Vec<Tab>,
}

/// Diagnostic record: a shape label whose canonical identifier matches no
/// known skill, remembered with the package and tab it came from.
#[derive(Debug, Clone)]
pub struct MissingReference {
    pub package_identifier: String,
    pub tab_identifier: String,
    pub raw_label: String,
}

/// Fatal load-time error: a diagram does not follow the expected nesting
/// convention. Identifies the offending package and tab.
#[derive(Debug, Clone)]
pub struct StructuralViolation {
    pub package_identifier: String,
    pub tab_identifier: String,
}

// Models.

pub ghost struct SpecMissing {
    pub package_identifier: Seq<char>,
    pub tab_identifier: Seq<char>,
    pub raw_label: Seq<char>,
}

pub open spec fn missing_model(m: MissingReference) -> SpecMissing {
    SpecMissing {
        package_identifier: m.package_identifier@,
        tab_identifier: m.tab_identifier@,
        raw_label: m.raw_label@,
    }
}

pub open spec fn missings_model(s: Seq<MissingReference>) -> Seq<SpecMissing> {
    Seq::new(s.len(), |i: int| missing_model(s[i]))
}

/// The known-skill identifier set, as a sequence of identifiers.
pub open spec fn ids_model(s: Seq<String>) -> Seq<Seq<char>> {
    Seq::new(s.len(), |i: int| s[i]@)
}

/// Membership of an identifier in the known-skill set.
pub open spec fn known_has(known: Seq<Seq<char>>, id: Seq<char>) -> bool {
    exists|j: int| 0 <= j < known.len() && known[j] == id
}

/// Does the known-skill set contain this identifier?
pub fn known_contains(known: &Vec<String>, id: &String) -> (r: bool)
    ensures
        r == known_has(ids_model(known@), id@),
{
    let n = known.len();
    for j in 0..n
        invariant
            n == known@.len(),
            forall|k: int| 0 <= k < j ==> #[trigger] known@[k]@ != id@,
    {
        if crate::tree::str_eq(known[j].as_str(), id.as_str()) {
            proof {
                assert(ids_model(known@)[j as int] == id@);
            }
            return true;
        }
    }
    proof {
        assert(forall|k: int|
            0 <= k < known@.len() ==> #[trigger] ids_model(known@)[k] == known@[k]@);
    }
    false
}

/// The identifiers of the loaded skills, in order: the known-skill set that
/// one load pass uses for every tab.
pub fn skill_identifiers(skills: &Vec<Skill>) -> (r: Vec<String>)
    ensures
        r@.len() == skills@.len(),
        forall|i: int| 0 <= i < skills@.len() ==> r@[i]@ == #[trigger] skills@[i].identifier@,
{
    let n = skills.len();
    let mut out: Vec<String> = Vec::new();
    for j in 0..n
        invariant
            n == skills@.len(),
            out@.len() == j,
            forall|k: int| 0 <= k < j ==> out@[k]@ == #[trigger] skills@[k].identifier@,
    {
        out.push(skills[j].identifier.clone());
    }
    out
}

/// First skill with the given identifier, if any.
pub fn find_skill(skills: &Vec<Skill>, id: &str) -> (r: Option<usize>)
    ensures
        match r {
            Some(j) => j < skills@.len() && skills@[j as int].identifier@ == id@ && forall|k: int|
                0 <= k < j ==> #[trigger] skills@[k].identifier@ != id@,
            None => forall|k: int|
                0 <= k < skills@.len() ==> #[trigger] skills@[k].identifier@ != id@,
        },
{
    let n = skills.len();
    for j in 0..n
        invariant
            n == skills@.len(),
            forall|k: int| 0 <= k < j ==> #[trigger] skills@[k].identifier@ != id@,
    {
        if crate::tree::str_eq(skills[j].identifier.as_str(), id) {
            return Some(j);
        }
    }
    None
}

/// First package with the given identifier, if any.
pub fn find_package(packages: &Vec<Package>, id: &str) -> (r: Option<usize>)
    ensures
        match r {
            Some(j) => j < packages@.len() && packages@[j as int].identifier@ == id@ && forall|
                k: int,
            | 0 <= k < j ==> #[trigger] packages@[k].identifier@ != id@,
            None => forall|k: int|
                0 <= k < packages@.len() ==> #[trigger] packages@[k].identifier@ != id@,
        },
{
    let n = packages.len();
    for j in 0..n
        invariant
            n == packages@.len(),
            forall|k: int| 0 <= k < j ==> #[trigger] packages@[k].identifier@ != id@,
    {
        if crate::tree::str_eq(packages[j].identifier.as_str(), id) {
            return Some(j);
        }
    }
    None
}

/// First tab with the given identifier, if any.
pub fn find_tab(tabs: &Vec<Tab>, id: &str) -> (r: Option<usize>)
    ensures
        match r {
            Some(j) => j < tabs@.len() && tabs@[j as int].identifier@ == id@ && forall|k: int|
                0 <= k < j ==> #[trigger] tabs@[k].identifier@ != id@,
            None => forall|k: int|
                0 <= k < tabs@.len() ==> #[trigger] tabs@[k].identifier@ != id@,
        },
{
    let n = tabs.len();
    for j in 0..n
        invariant
            n == tabs@.len(),
            forall|k: int| 0 <= k < j ==> #[trigger] tabs@[k].identifier@ != id@,
    {
        if crate::tree::str_eq(tabs[j].identifier.as_str(), id) {
            return Some(j);
        }
    }
    None
}

} // verus!

//! Documentation site for a skill tree: Markdown pages for single skills and
//! diagram markup for skill nodes grouped into packages and tabs.
//!
//! The heart of the crate is the annotation and templating engine: it walks a
//! parsed diagram tree, finds the shape of each skill, normalizes its label
//! into a canonical identifier, records a diagnostic for every identifier
//! with no known skill, stamps the shapes with styling placeholders, and
//! replaces each label container with an interactive control, before
//! serializing the result into a template artifact. Everything the engine
//! does is specified and verified; reading files, parsing markup text into
//! the tree, rendering Markdown and resolving the emitted placeholders are
//! the work of external collaborators.

use vstd::prelude::*;

pub mod annotate;
pub mod emit;
pub mod inject;
pub mod laws;
pub mod records;
pub mod template;
pub mod text;
pub mod tree;

verus! {

/// Greeting shown at the site root, pointing a visitor at the data routes.
pub fn index() -> (r: String)
    ensures
        r@ == "Welcome to skilltreedocs. Try to /skills and /packages route for relevant paths"@,
{
    String::from_str("Welcome to skilltreedocs. Try to /skills and /packages route for relevant paths")
}

} // verus!

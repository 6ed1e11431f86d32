//! Route-path normalization. A route may arrive as a JSON string or as a
//! JSON number; both forms of the same route must land on the same key, so
//! numbers are canonicalized to their decimal string form.
use crate::digits::{dec_int, dec_nat, i64_to_dec, u64_to_dec};
use vstd::prelude::*;

verus! {

/// A route identifier as submitted: a JSON string, a JSON integer (signed
/// or unsigned), or any other JSON shape already rendered to text by the
/// caller through its generic string form (this covers fractional numbers,
/// whose rendering the library does not define).
pub enum PathInput {
    Text(String),
    IntNum(i64),
    UintNum(u64),
    Rendered(String),
}

/// The normalized route key for an input: strings pass through unchanged,
/// integers render to their canonical decimal form, anything else keeps the
/// caller's generic rendering.
pub open spec fn spec_normalize(p: &PathInput) -> Seq<char> {
    match p {
        PathInput::Text(s) => s@,
        PathInput::IntNum(n) => dec_int(*n as int),
        PathInput::UintNum(n) => dec_nat(*n as nat),
        PathInput::Rendered(s) => s@,
    }
}

/// Normalize a submitted route identifier to its stored key. Referentially
/// stable: the same input always yields the same key.
pub fn normalize_path(p: &PathInput) -> (r: String)
    ensures
        r@ == spec_normalize(p),
{
    match p {
        PathInput::Text(s) => s.clone(),
        PathInput::IntNum(n) => i64_to_dec(*n),
        PathInput::UintNum(n) => u64_to_dec(*n),
        PathInput::Rendered(s) => s.clone(),
    }
}

/// A route submitted as an integer and as the decimal string of that
/// integer normalize to the same key, so they update the same stored entry.
pub proof fn lemma_numeric_and_text_paths_collide(n: i64, s: String)
    requires
        s@ == dec_int(n as int),
    ensures
        spec_normalize(&PathInput::IntNum(n)) == spec_normalize(&PathInput::Text(s)),
{
}

} // verus!

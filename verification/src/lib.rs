//! A rule engine for password-candidate generation: a parser for the
//! Hashcat/John-the-Ripper rule dialect, an evaluator that applies compiled
//! rules to words, a simplifier that rewrites rule sequences into cheaper
//! equivalents, and a batch driver that fans a rule line out over many words.
use vstd::prelude::*;

pub mod ascii;
pub mod chars;
pub mod digits;
pub mod engine;
pub mod fold;
pub mod lang;
pub mod laws;
pub mod parser;
pub mod semantics;
pub mod serialize;
pub mod simplify;
pub mod strops;

verus! {

/// A batch input: the rule lines to compile and the words to transform.
pub struct RulesAndWords {
    pub rules: Vec<String>,
    pub words: Vec<String>,
}

} // verus!

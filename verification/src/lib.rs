//! The correctness core of MiniLang's compiler workbench, Qydrel.
//!
//! A program is a syntax tree ([`ast`]). Its meaning is a function of the tree ([`semantics`]);
//! the interpreter ([`oracle`]) computes that function and serves as the reference that compiled
//! backends are compared with ([`compare`]). What each construct does is stated in [`meaning`].
//! What is known of whole runs stands in [`laws`] and [`variants`], on top of [`words`], [`bounds`]
//! and [`budget`].
//!
//! An evidence report gathers what the checks make of a corpus of programs ([`evidence`]), of fuzz
//! runs ([`fuzz`], [`coverage`]) and of the bugs on record ([`artifacts`], [`metadata`]). It has a
//! verdict ([`report`]) and is written as JSON ([`report_json`], [`json`]) and as Markdown
//! ([`report_markdown`]). What it says of its sources stands in [`evidence_laws`], and what is
//! written of it in [`report_laws`].

pub mod arithmetic;
pub mod artifacts;
pub mod ast;
pub mod bounds;
pub mod budget;
pub mod compare;
pub mod coverage;
pub mod evidence;
pub mod evidence_laws;
pub mod fuzz;
pub mod hash;
pub mod json;
pub mod laws;
pub mod limits;
pub mod meaning;
pub mod metadata;
pub mod names;
pub mod opcode;
pub mod oracle;
pub mod order;
pub mod report;
pub mod report_json;
pub mod report_laws;
pub mod report_markdown;
pub mod semantics;
pub mod table;
pub mod text;
pub mod trap;
pub mod variants;
pub mod words;

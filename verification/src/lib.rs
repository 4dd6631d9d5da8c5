//! Architectural memory over ADRs, commits and source symbols: the verified
//! core of the tools — freshness of cited evidence, retrieval fusion, ADR
//! rendering, consistency heuristics, and the text handling they share.

pub mod bignum;
pub mod dates;
pub mod hashing;
pub mod ids;
pub mod laws;
pub mod scan;
pub mod text;
pub mod tools;

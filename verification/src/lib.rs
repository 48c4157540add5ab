//! Verified core of the codeoid terminal client: session metadata types,
//! the fuzzy subsequence matcher, `@`-mention path ranking and the
//! language handling around syntax highlighting.

pub mod fuzzy;
pub mod highlight;
pub mod mention;
pub mod session;
pub mod text;

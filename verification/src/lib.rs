//! Lexical front end for a small C-like teaching language.
//!
//! The scanner turns raw source text into an ordered sequence of classified
//! tokens: identifiers, keywords, numeric and string literals, separators,
//! operators and escape sequences. Malformed constructs never abort the scan;
//! they are reported in-band as `Invalid` tokens, so a single pass surfaces
//! every lexical defect in its input.

pub mod scanner;

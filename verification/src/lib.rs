//! Structural information from C and C++ source text, without a compiler
//! front end: the tokens of a source, the names it declares at its top level,
//! and the headers it includes.
//!
//! [`tokenizer`] splits a text into tokens that cover it without gaps;
//! [`token_filter`] keeps the tokens of the code; [`preprocessor`] reads
//! `#define` and `#include` directives; [`declaration_finder`] walks the
//! filtered tokens and collects the declared names, as [`scan_model`]
//! describes and with the errors of [`scan_error`]. [`comment_remover`],
//! [`string_remover`] and [`standard_headers`] are small tools on top of the
//! tokenizer, and [`text`] holds the conversions that the others share.
pub mod comment_remover;
pub mod declaration_finder;
pub mod preprocessor;
pub mod scan_error;
pub mod scan_model;
pub mod standard_headers;
pub mod string_remover;
pub mod text;
pub mod token_filter;
pub mod tokenizer;

//! Reads INI / Python-`configparser`-style configuration text and remembers where every
//! piece of it came from.
//!
//! Parsing produces a [`Parsed`]: the [`Ini`] document, the source it was read from, and
//! every [`Problem`] found along the way. Section names, option names and values each carry
//! the byte [`Span`] of the text they were read from.
#![allow(unused_imports)]

pub mod text;
pub mod span;
pub mod fragment;
pub mod index_map;
pub mod ini;
pub mod lexer;
pub mod matcher;
pub mod options;
pub mod parse;
pub mod problem;

pub use ini::{
    Entry, Ini, InvalidBooleanError, NoSectionError, Section, SectionView, convert_to_boolean,
};
pub use options::Options;
pub use parse::{Error, Parsed, parse};
pub use problem::{Problem, ProblemKind, Severity};
pub use span::{Span, Spanned};

/// The diagnostic renderer [`Problem::to_diagnostic`] targets, re-exported so that a caller
/// can always name the exact `Diagnostic` type this crate produces.
pub use codespan_reporting;

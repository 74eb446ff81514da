//! Point-cloud filtering: a rule engine that combines named geometric
//! predicates by a boolean expression, a voxel-grid estimator of static
//! background, and the cascade that joins the two.
//!
//! Coordinates, lengths and intensities are whole numbers of a unit that
//! the caller chooses; directions are vectors of whole numbers and shares
//! are fractions, so that every decision is exact.
//!
//! - [`lexer`], [`parser`], [`print_parse`]: the filter-expression
//!   language, its printer, and the law that joins them.
//! - [`normal_form`], [`form_logic`], [`form_laws`], [`form_text`],
//!   [`choices`]: normal forms of expressions and their meaning.
//! - [`item`], [`filter_program`], [`combinators`]: the named predicates
//!   and the rule engine over them.
//! - [`static_point_filter`], [`grid_history`], [`voxel_map`], [`bits`]:
//!   the static-point filter and what its grid holds after a history.
//! - [`filter`]: the cascade of stages, frame by frame.
//! - [`bound`], [`text`], [`error`]: interval ends in record form,
//!   dictionary order on texts, and the reasons for which settings are
//!   refused.

pub mod bits;
pub mod bound;
pub mod choices;
pub mod combinators;
pub mod error;
pub mod filter;
pub mod filter_program;
pub mod form_laws;
pub mod form_logic;
pub mod form_text;
pub mod grid_history;
pub mod item;
pub mod lexer;
pub mod normal_form;
pub mod parser;
pub mod print_parse;
pub mod static_point_filter;
pub mod text;
pub mod voxel_map;

//! Parser, validator and serializer for SCXML state-chart documents.
//!
//! The library turns XML text into a typed abstract syntax tree ([`Scxml`]),
//! checks the tree for global id uniqueness and transition-target
//! resolvability ([`validate`]), and re-emits it as canonical XML
//! ([`to_xml`]).
//!
//! Character-level XML tokenizing is delegated to an external collaborator;
//! everything after it — the grammar, the validator and the serializer — is
//! specified and verified against the element-tree view in [`xml`].

pub mod ast;
pub mod parser;
pub mod round_trip;
pub mod serialize;
pub mod validate;
pub mod xml;

pub use ast::Content;
pub use ast::Data;
pub use ast::Executable;
pub use ast::Final;
pub use ast::Finalize;
pub use ast::History;
pub use ast::Initial;
pub use ast::Invoke;
pub use ast::Parallel;
pub use ast::Param;
pub use ast::ParseError;
pub use ast::ParseOptions;
pub use ast::Scxml;
pub use ast::State;
pub use ast::StateLike;
pub use ast::Transition;
pub use ast::ValidationError;
pub use parser::parse_document;
pub use parser::parse_scxml;
pub use parser::parse_scxml_with_options;
pub use serialize::to_xml;
pub use validate::validate;
pub use xml::Element;

//! Builds an `sxd_document` tree from the tree-construction commands of an
//! HTML5 parser.
//!
//! The heart of the crate is [`DocHtmlSink`]: it takes the commands one by
//! one (create a node, append, insert before a sibling, move children, add
//! attributes, report an error) and applies them to a document, merging runs
//! of text as it goes. Every command is verified against a mathematical
//! model of the document.
//!
//! - [`tree`] holds the model of a document as the store has it, node by
//!   node, and [`outline`] the model as the parser sees it, with text by its
//!   characters. The contracts of the sink speak of both.
//! - [`store`] is the border to `sxd_document`: the calls into it, each with
//!   a contract that is taken on trust. [`dom`] keeps the document of a
//!   session, and which of its elements were made as templates.
//! - [`handle`], [`name`], [`util`] and [`error`] hold the values that pass
//!   between the parser and the sink, and [`driver`] how the parser is set
//!   up.
//! - [`sink`] holds the commands, [`laws`] what holds of them in general,
//!   and [`facts`] and [`seqs`] the lemmas behind the proofs.
pub mod dom;
pub mod driver;
pub mod error;
pub mod facts;
pub mod handle;
pub mod laws;
pub mod name;
pub mod outline;
pub mod seqs;
pub mod sink;
pub mod store;
pub mod tree;
pub mod util;

pub use dom::{new_package, Dom};
pub use error::Error;
pub use handle::{ChildOfElement, ChildOfRoot, Handle, NodeOrText, ParentOfChild};
pub use name::{Attribute, ExpandedName, QName, QualName};
pub use sink::{DocHtmlSink, ElementFlags, QuirksMode};

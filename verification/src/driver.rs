//! How a session is set up: what the parser is asked to do, and for a
//! fragment the element that the parser takes it to stand in.
use crate::name::{QualName, QualNameView};
use vstd::prelude::*;

verus! {

/// What the parser is asked to do for this sink.
#[derive(Debug, Clone, Copy, PartialEq, Eq)]
pub struct ParserSetup {
    /// The parser hands over no document type.
    pub drop_doctype: bool,
    /// The parser reports errors with their full text.
    pub exact_errors: bool,
}

/// The setup of the parser, for a whole document and for a fragment alike:
/// the document has no place for a document type, so none is asked for, and
/// errors are wanted in full.
pub fn parser_setup() -> (setup: ParserSetup)
    ensures
        setup.drop_doctype,
        setup.exact_errors,
{
    ParserSetup { drop_doctype: true, exact_errors: true }
}

/// The name of the element that a fragment is taken to stand in: no prefix,
/// no namespace, and an empty local name, so that the parser holds nothing
/// back that only belongs inside some element.
pub fn fragment_context() -> (name: QualName)
    ensures
        name@ == (QualNameView { prefix: None, ns: Seq::empty(), local: Seq::empty() }),
{
    QualName::new(None, String::new(), String::new())
}

} // verus!

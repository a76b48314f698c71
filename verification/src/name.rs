//! The names the sink deals in: the parser's namespace-aware name of an
//! element or attribute, and the document's name of a node.
use vstd::prelude::*;

verus! {

/// A name as the parser gives it: an optional prefix, a namespace and a local
/// name.
#[derive(Debug, PartialEq, Eq, Hash)]
pub struct QualName {
    pub prefix: Option<String>,
    pub ns: String,
    pub local: String,
}

/// What a [`QualName`] is in contracts.
pub struct QualNameView {
    pub prefix: Option<Seq<char>>,
    pub ns: Seq<char>,
    pub local: Seq<char>,
}

/// The characters of an optional string.
pub open spec fn opt_view(s: Option<String>) -> Option<Seq<char>> {
    match s {
        Some(s) => Some(s@),
        None => None,
    }
}

impl View for QualName {
    type V = QualNameView;

    open spec fn view(&self) -> QualNameView {
        QualNameView { prefix: opt_view(self.prefix), ns: self.ns@, local: self.local@ }
    }
}

fn clone_opt(s: &Option<String>) -> (r: Option<String>)
    ensures
        r == *s,
{
    match s {
        Some(s) => Some(s.clone()),
        None => None,
    }
}

impl Clone for QualName {
    fn clone(&self) -> (r: Self)
        ensures
            r == *self,
    {
        QualName { prefix: clone_opt(&self.prefix), ns: self.ns.clone(), local: self.local.clone() }
    }
}

/// A namespace and a local name, borrowed from a [`QualName`].
#[derive(Debug, Clone, Copy, PartialEq, Eq)]
pub struct ExpandedName<'a> {
    pub ns: &'a str,
    pub local: &'a str,
}

impl QualName {
    /// A name of these three parts.
    pub fn new(prefix: Option<String>, ns: String, local: String) -> (q: Self)
        ensures
            q == (QualName { prefix, ns, local }),
    {
        QualName { prefix, ns, local }
    }

    /// The name without its prefix.
    pub fn expanded(&self) -> (e: ExpandedName<'_>)
        ensures
            e.ns@ == self@.ns,
            e.local@ == self@.local,
    {
        ExpandedName { ns: self.ns.as_str(), local: self.local.as_str() }
    }
}

/// A name as the document stores it: an optional namespace and a local part.
#[derive(Debug, PartialEq, Eq, Hash)]
pub struct QName {
    pub namespace_uri: Option<String>,
    pub local_part: String,
}

/// What a [`QName`] is in contracts.
pub struct QNameView {
    pub namespace_uri: Option<Seq<char>>,
    pub local_part: Seq<char>,
}

impl View for QName {
    type V = QNameView;

    open spec fn view(&self) -> QNameView {
        QNameView { namespace_uri: opt_view(self.namespace_uri), local_part: self.local_part@ }
    }
}

impl QName {
    /// A name without a namespace.
    pub fn new(local_part: String) -> (q: Self)
        ensures
            q@ == (QNameView { namespace_uri: None, local_part: local_part@ }),
    {
        QName { namespace_uri: None, local_part }
    }

    /// A name with an optional namespace.
    pub fn with_namespace_uri(namespace_uri: Option<String>, local_part: String) -> (q: Self)
        ensures
            q == (QName { namespace_uri, local_part }),
    {
        QName { namespace_uri, local_part }
    }
}

/// An attribute as the parser gives it.
#[derive(Debug, PartialEq, Eq)]
pub struct Attribute {
    pub name: QualName,
    pub value: String,
}

/// What an [`Attribute`] is in contracts.
pub struct AttributeView {
    pub name: QualNameView,
    pub value: Seq<char>,
}

impl View for Attribute {
    type V = AttributeView;

    open spec fn view(&self) -> AttributeView {
        AttributeView { name: self.name@, value: self.value@ }
    }
}

} // verus!

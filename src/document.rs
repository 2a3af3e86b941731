use miette::SourceSpan;
use vstd::prelude::*;

verus! {

/// A byte range of the source text.
#[derive(Debug, Clone, Copy, PartialEq, Eq, Structural)]
pub struct Span {
    pub offset: usize,
    pub len: usize,
}

impl Span {
    pub fn new(offset: usize, len: usize) -> (r: Span)
        ensures
            r == (Span { offset, len }),
    {
        Span { offset, len }
    }
}

/// One argument or property of a node.
#[derive(Debug)]
pub struct Entry {
    /// Where the property's name stands, when the entry is a named property.
    pub name: Option<Span>,
    /// The value, when it is a string.
    pub value: Option<String>,
    pub span: Span,
}

/// One node of the source document: a name, its entries and an optional
/// block of children.
#[derive(Debug)]
pub struct Node {
    pub name: String,
    pub name_span: Span,
    pub entries: Vec<Entry>,
    pub children: Option<Document>,
    pub span: Span,
}

/// A sequence of nodes: the whole source, or the children of one node.
#[derive(Debug)]
pub struct Document {
    pub nodes: Vec<Node>,
    pub span: Span,
}

/// A positioned message about the source text, with an optional label for
/// the span and an optional suggestion.
#[derive(Debug)]
pub struct Diagnostic {
    pub message: String,
    pub label: Option<String>,
    pub span: Span,
    pub help: Option<String>,
}

/// The diagnostic as plain values.
pub ghost struct DiagnosticView {
    pub message: Seq<char>,
    pub label: Option<Seq<char>>,
    pub span: Span,
    pub help: Option<Seq<char>>,
}

impl View for Diagnostic {
    type V = DiagnosticView;

    open spec fn view(&self) -> DiagnosticView {
        DiagnosticView {
            message: self.message@,
            label: match self.label {
                Some(l) => Some(l@),
                None => None,
            },
            span: self.span,
            help: match self.help {
                Some(h) => Some(h@),
                None => None,
            },
        }
    }
}

#[verifier::external_type_specification]
#[verifier::external_body]
pub struct ExKdlDocument(kdl::KdlDocument);

/// Whether the text is a well-formed KDL document.
pub uninterp spec fn kdl_accepts(src: Seq<char>) -> bool;

/// The node tree of a well-formed KDL document, in plain values.
pub uninterp spec fn kdl_tree(src: Seq<char>) -> Document;

/// Relies on kdl's `FromStr` for `KdlDocument`, which succeeds exactly on
/// well-formed documents and depends on the text alone; the tree is copied
/// into plain values by `document_from_kdl`. On failure the first of kdl's
/// diagnostics is kept.
#[verifier::external_body]
pub(crate) fn parse_kdl(src: &str) -> (r: Result<Document, Diagnostic>)
    ensures
        r is Ok <==> kdl_accepts(src@),
        r matches Ok(d) ==> d == kdl_tree(src@),
{
    src.parse::<kdl::KdlDocument>().map(|doc| document_from_kdl(&doc)).map_err(|e| match e.diagnostics.first() {
        Some(d) => Diagnostic {
            message: d.to_string(),
            label: d.label.clone(),
            span: Span { offset: d.span.offset(), len: d.span.len() },
            help: d.help.clone(),
        },
        None => Diagnostic { message: e.to_string(), label: None, span: Span { offset: 0, len: 0 }, help: None },
    })
}

/// The copying half of `parse_kdl`, which alone calls it: relies on kdl's
/// accessors of `KdlDocument`, `KdlNode` and `KdlEntry` to copy the node tree
/// into plain values, string values kept as text. It recurses into child
/// blocks, so it cannot stand inside `parse_kdl`'s body.
#[verifier::external_body]
pub(crate) fn document_from_kdl(doc: &kdl::KdlDocument) -> (r: Document) {
    let span = |s: SourceSpan| Span::new(s.offset(), s.len());
    Document {
        nodes: doc.nodes().iter().map(|n| Node {
            name: n.name().value().to_string(),
            name_span: span(n.name().span()),
            entries: n.entries().iter().map(|e| Entry {
                name: e.name().map(|i| span(i.span())),
                value: e.value().as_string().map(str::to_string),
                span: span(e.span()),
            }).collect(),
            children: n.children().map(document_from_kdl),
            span: span(n.span()),
        }).collect(),
        span: span(doc.span()),
    }
}

} // verus!

//! What this library relies on from the `kdl` crate: its document type, the
//! accessors that read a parsed document, and the parser itself.
use vstd::prelude::*;

use kdl::{KdlDocument, KdlEntry, KdlIdentifier, KdlNode, KdlValue};

verus! {

/// `kdl::KdlDocument`, carried opaquely: a parsed document.
#[verifier::external_type_specification]
#[verifier::external_body]
pub struct ExKdlDocument(KdlDocument);

/// `kdl::KdlNode`, carried opaquely: one node of a document.
#[verifier::external_type_specification]
#[verifier::external_body]
pub struct ExKdlNode(KdlNode);

/// `kdl::KdlEntry`, carried opaquely: an argument or property of a node.
#[verifier::external_type_specification]
#[verifier::external_body]
pub struct ExKdlEntry(KdlEntry);

/// `kdl::KdlIdentifier`, carried opaquely: the name of a node or property.
#[verifier::external_type_specification]
#[verifier::external_body]
pub struct ExKdlIdentifier(KdlIdentifier);

/// `kdl::KdlValue`, carried opaquely: the value of an entry.
#[verifier::external_type_specification]
#[verifier::external_body]
pub struct ExKdlValue(KdlValue);

/// The top-level nodes of a document, in document order.
pub uninterp spec fn doc_nodes(d: KdlDocument) -> Seq<KdlNode>;

/// The identifier that names a node.
pub uninterp spec fn node_ident(n: KdlNode) -> KdlIdentifier;

/// The text of an identifier.
pub uninterp spec fn ident_text(i: KdlIdentifier) -> Seq<char>;

/// The entries (arguments and properties) of a node, in order.
pub uninterp spec fn node_entries(n: KdlNode) -> Seq<KdlEntry>;

/// The block of child nodes of a node, if it has one.
pub uninterp spec fn node_children(n: KdlNode) -> Option<KdlDocument>;

/// The name of an entry: present for a property, absent for an argument.
pub uninterp spec fn entry_ident(e: KdlEntry) -> Option<KdlIdentifier>;

/// The value of an entry.
pub uninterp spec fn entry_value(e: KdlEntry) -> KdlValue;

/// The text of a value that is a string.
pub uninterp spec fn value_text(v: KdlValue) -> Option<Seq<char>>;

/// The number held by a value that is an integer.
pub uninterp spec fn value_integer(v: KdlValue) -> Option<i128>;

/// The document that a text parses to, if it is well-formed.
pub uninterp spec fn parsed_kdl(s: Seq<char>) -> Option<KdlDocument>;

/// The name of a node as text.
pub open spec fn node_name(n: KdlNode) -> Seq<char> {
    ident_text(node_ident(n))
}

/// The first of `nodes` whose name is `name`.
pub open spec fn first_named(nodes: Seq<KdlNode>, name: Seq<char>) -> Option<KdlNode>
    decreases nodes.len(),
{
    if nodes.len() == 0 {
        None
    } else if node_name(nodes[0]) == name {
        Some(nodes[0])
    } else {
        first_named(nodes.drop_first(), name)
    }
}

/// The value of the last property of `entries` named `key`.
pub open spec fn last_property(entries: Seq<KdlEntry>, key: Seq<char>) -> Option<KdlValue>
    decreases entries.len(),
{
    if entries.len() == 0 {
        None
    } else if entry_ident(entries.last()) is Some && ident_text(
        entry_ident(entries.last())->Some_0,
    ) == key {
        Some(entry_value(entries.last()))
    } else {
        last_property(entries.drop_last(), key)
    }
}

/// Relies on `KdlDocument::nodes`: the top-level nodes, in order.
pub assume_specification[ KdlDocument::nodes ](d: &KdlDocument) -> (r: &[KdlNode])
    ensures
        r@ == doc_nodes(*d),
;

/// Relies on `KdlDocument::get`: the first top-level node with the given name.
pub assume_specification<'a, 'b>[ KdlDocument::get ](d: &'a KdlDocument, name: &'b str) -> (r:
    Option<&'a KdlNode>)
    ensures
        match r {
            Some(n) => first_named(doc_nodes(*d), name@) == Some(*n),
            None => first_named(doc_nodes(*d), name@) is None,
        },
;

/// Relies on `KdlNode::name`: the node's identifier.
pub assume_specification[ KdlNode::name ](n: &KdlNode) -> (r: &KdlIdentifier)
    ensures
        *r == node_ident(*n),
;

/// Relies on `KdlIdentifier::value`: the identifier's text.
pub assume_specification[ KdlIdentifier::value ](i: &KdlIdentifier) -> (r: &str)
    ensures
        r@ == ident_text(*i),
;

/// Relies on `KdlNode::entries`: the node's arguments and properties, in order.
pub assume_specification[ KdlNode::entries ](n: &KdlNode) -> (r: &[KdlEntry])
    ensures
        r@ == node_entries(*n),
;

/// Relies on `KdlNode::children`: the node's child block, if any.
pub assume_specification[ KdlNode::children ](n: &KdlNode) -> (r: Option<&KdlDocument>)
    ensures
        match r {
            Some(c) => node_children(*n) == Some(*c),
            None => node_children(*n) is None,
        },
;

/// Relies on `KdlEntry::name`: the property name, absent for an argument.
pub assume_specification[ KdlEntry::name ](e: &KdlEntry) -> (r: Option<&KdlIdentifier>)
    ensures
        match r {
            Some(i) => entry_ident(*e) == Some(*i),
            None => entry_ident(*e) is None,
        },
;

/// Relies on `KdlEntry::value`: the entry's value.
pub assume_specification[ KdlEntry::value ](e: &KdlEntry) -> (r: &KdlValue)
    ensures
        *r == entry_value(*e),
;

/// Relies on `KdlValue::as_string`: the text of a string value, else nothing.
pub assume_specification[ KdlValue::as_string ](v: &KdlValue) -> (r: Option<&str>)
    ensures
        match r {
            Some(t) => value_text(*v) == Some(t@),
            None => value_text(*v) is None,
        },
;

/// Relies on `KdlValue::as_integer`: the number of an integer value, else nothing.
pub assume_specification[ KdlValue::as_integer ](v: &KdlValue) -> (r: Option<i128>)
    ensures
        r == value_integer(*v),
;

/// Relies on `KdlNode::get` with a string key: the value of the last property
/// of the node with that name.
#[verifier::external_body]
pub(crate) fn property<'a>(n: &'a KdlNode, key: &str) -> (r: Option<&'a KdlValue>)
    ensures
        match r {
            Some(v) => last_property(node_entries(*n), key@) == Some(*v),
            None => last_property(node_entries(*n), key@) is None,
        },
{
    n.get(key)
}

/// What `KdlError` displays, whatever the failure.
pub open spec fn kdl_failure() -> Seq<char> {
    "Failed to parse KDL document"@
}

/// Relies on `KdlDocument::parse`: the document that `text` writes, or the
/// text that the parser's `KdlError` displays.
#[verifier::external_body]
pub(crate) fn parse_document(text: &str) -> (r: Result<KdlDocument, String>)
    ensures
        match r {
            Ok(d) => parsed_kdl(text@) == Some(d),
            Err(e) => parsed_kdl(text@) is None && e@ == kdl_failure(),
        },
{
    KdlDocument::parse(text).map_err(|e| e.to_string())
}

} // verus!

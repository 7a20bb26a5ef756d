//! The generic element-tree view of an XML document.
//!
//! Character-level XML tokenizing is the job of an external collaborator
//! (roxmltree); this library works on the resulting [`Element`] tree: tag
//! name, namespace, attributes, element children in document order, and the
//! leading text content of an element. The bridge from XML text to the tree
//! is the only trusted step of parsing.

use vstd::prelude::*;

verus! {

/// One element of an XML document, as the grammar sees it.
#[derive(Debug)]
pub struct Element {
    /// The local tag name.
    pub name: String,
    /// The namespace URI the tag resolves to, if any.
    pub namespace: Option<String>,
    /// The un-namespaced attributes, in document order.
    pub attributes: Vec<(String, String)>,
    /// The element children, in document order.
    pub children: Vec<Element>,
    /// The text content directly under this element, if any.
    pub text: Option<String>,
}

/// Spec mirror of [`Element`].
#[verifier::ext_equal]
pub struct SpecElement {
    pub name: Seq<char>,
    pub namespace: Option<Seq<char>>,
    pub attributes: Seq<(Seq<char>, Seq<char>)>,
    pub children: Seq<SpecElement>,
    pub text: Option<Seq<char>>,
}

pub open spec fn view_element(e: Element) -> SpecElement
    decreases e,
{
    SpecElement {
        name: e.name@,
        namespace: e.namespace.deep_view(),
        attributes: e.attributes.deep_view(),
        children: view_element_seq(e.children@),
        text: e.text.deep_view(),
    }
}

pub open spec fn view_element_seq(es: Seq<Element>) -> Seq<SpecElement>
    decreases es,
{
    if es.len() == 0 {
        Seq::empty()
    } else {
        seq![view_element(es[0])] + view_element_seq(es.drop_first())
    }
}

impl View for Element {
    type V = SpecElement;

    open spec fn view(&self) -> SpecElement {
        view_element(*self)
    }
}

pub proof fn lemma_view_element_seq(es: Seq<Element>)
    ensures
        view_element_seq(es).len() == es.len(),
        forall|i: int| 0 <= i < es.len() ==> view_element_seq(es)[i] == view_element(es[i]),
    decreases es,
{
    if es.len() > 0 {
        lemma_view_element_seq(es.drop_first());
    }
}

pub proof fn lemma_view_element_seq_push(es: Seq<Element>, e: Element)
    ensures
        view_element_seq(es.push(e)) == view_element_seq(es).push(view_element(e)),
{
    lemma_view_element_seq(es);
    lemma_view_element_seq(es.push(e));
    assert(view_element_seq(es.push(e)) =~= view_element_seq(es).push(view_element(e)));
}

pub proof fn lemma_view_element_seq_concat(a: Seq<Element>, b: Seq<Element>)
    ensures
        view_element_seq(a + b) == view_element_seq(a) + view_element_seq(b),
{
    lemma_view_element_seq(a);
    lemma_view_element_seq(b);
    lemma_view_element_seq(a + b);
    assert(view_element_seq(a + b) =~= view_element_seq(a) + view_element_seq(b));
}

// ---------------------------------------------------------------------------
// Attribute lookup
// ---------------------------------------------------------------------------

/// The value of the first attribute called `name`, if any.
pub open spec fn spec_attr(attrs: Seq<(Seq<char>, Seq<char>)>, name: Seq<char>) -> Option<
    Seq<char>,
>
    decreases attrs,
{
    if attrs.len() == 0 {
        None
    } else if attrs[0].0 == name {
        Some(attrs[0].1)
    } else {
        spec_attr(attrs.drop_first(), name)
    }
}

/// Whether two string slices hold the same characters.
pub fn str_eq(a: &str, b: &str) -> (r: bool)
    ensures
        r == (a@ == b@),
{
    let a_len = a.unicode_len();
    let b_len = b.unicode_len();
    if a_len != b_len {
        assert(a@ != b@);
        return false;
    }
    let mut i: usize = 0;
    while i < a_len
        invariant
            0 <= i <= a_len,
            a_len == a@.len(),
            a_len == b@.len(),
            forall|j: int| 0 <= j < i ==> a@[j] == b@[j],
        decreases a_len - i,
    {
        if a.get_char(i) != b.get_char(i) {
            return false;
        }
        i = i + 1;
    }
    proof {
        assert(a@ =~= b@);
    }
    true
}

impl Element {
    /// The value of this element's first attribute called `name`, if any.
    pub fn attribute(&self, name: &str) -> (r: Option<String>)
        ensures
            r.deep_view() == spec_attr(self@.attributes, name@),
    {
        let mut i: usize = 0;
        proof {
            assert(self@.attributes.skip(0) =~= self@.attributes);
        }
        while i < self.attributes.len()
            invariant
                0 <= i <= self.attributes.len(),
                spec_attr(self@.attributes.skip(i as int), name@) == spec_attr(
                    self@.attributes,
                    name@,
                ),
            decreases self.attributes.len() - i,
        {
            assert(self@.attributes =~= self.attributes.deep_view());
            if str_eq(self.attributes[i].0.as_str(), name) {
                assert(self@.attributes.skip(i as int)[0] == self@.attributes[i as int]);
                return Some(self.attributes[i].1.clone());
            }
            assert(self@.attributes.skip(i as int).drop_first() =~= self@.attributes.skip(
                i as int + 1,
            ));
            i = i + 1;
        }
        assert(self@.attributes.skip(i as int).len() == 0);
        None
    }

    /// Whether this element's tag name is `tag`.
    pub fn has_name(&self, tag: &str) -> (r: bool)
        ensures
            r == (self@.name == tag@),
    {
        str_eq(self.name.as_str(), tag)
    }
}

// ---------------------------------------------------------------------------
// The trusted bridge from XML text to the element tree
// ---------------------------------------------------------------------------

/// The element tree that XML text tokenizes to, or `None` when the text is
/// not well-formed XML. Tokenizing is deterministic in the text, so the tree
/// can be named; nothing else is assumed about it.
pub uninterp spec fn xml_tree_of(xml: Seq<char>) -> Option<SpecElement>;

#[verifier::external_type_specification]
#[verifier::external_body]
pub struct ExNode<'a, 'input: 'a>(roxmltree::Node<'a, 'input>);

/// Relies on roxmltree's read-only node accessors — `tag_name`, `attributes`,
/// `children`, `text` — to rebuild one node as an [`Element`]: element
/// children in document order, the un-namespaced attributes, which are the
/// ones `Node::attribute` with a plain name would find, and the element's
/// leading text, trimmed.
#[verifier::external_body]
fn node_to_element(node: roxmltree::Node<'_, '_>) -> Element {
    let attributes: Vec<(String, String)> = node.attributes().filter(
        |a| a.namespace().is_none(),
    ).map(|a| (a.name().to_string(), a.value().to_string())).collect();
    Element {
        name: node.tag_name().name().to_string(),
        namespace: node.tag_name().namespace().map(|s| s.to_string()),
        attributes,
        children: node.children().filter(|c| c.is_element()).map(node_to_element).collect(),
        text: node.text().map(|s| s.trim().to_string()),
    }
}

/// Relies on roxmltree::Document::parse: it tokenizes XML text
/// deterministically, returning the document tree whose root element
/// `node_to_element` rebuilds, or an error on text that is not well-formed
/// XML. `Err` carries the tokenizer's message.
#[verifier::external_body]
pub(crate) fn parse_xml(xml: &str) -> (r: Result<Element, String>)
    ensures
        r matches Ok(e) ==> xml_tree_of(xml@) == Some(e@),
        r matches Err(_) ==> xml_tree_of(xml@) is None,
{
    match roxmltree::Document::parse(xml) {
        Ok(doc) => Ok(node_to_element(doc.root_element())),
        Err(e) => Err(e.to_string()),
    }
}

} // verus!

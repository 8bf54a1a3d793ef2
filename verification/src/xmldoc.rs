use vstd::prelude::*;

verus! {

#[verifier::external_type_specification]
#[verifier::external_body]
pub struct ExElement(xmltree::Element);

#[verifier::external_type_specification]
#[verifier::external_body]
pub struct ExParseError(xmltree::ParseError);

/// The abstract content of one XML element: its tag name, its
/// attributes, its text content if any, and its child nodes in
/// document order — an element child carries its own content, any
/// other kind of node is opaque.
pub struct ElemModel {
    pub name: Seq<char>,
    pub attrs: Map<Seq<char>, Seq<char>>,
    pub text: Option<Seq<char>>,
    pub children: Seq<Option<ElemModel>>,
}

/// The content of a parsed element value.
pub uninterp spec fn elem_model(e: xmltree::Element) -> ElemModel;

/// The first root element of an XML document, where the bytes form
/// one; parsing is a pure function of the bytes.
pub uninterp spec fn parsed_doc(bytes: Seq<u8>) -> Option<ElemModel>;

/// Whether a child slot holds an element of the given name.
pub open spec fn child_named(c: Option<ElemModel>, n: Seq<char>) -> bool {
    c matches Some(m) && m.name == n
}

/// The first child element of the given name, in document order.
pub open spec fn spec_first_child(cs: Seq<Option<ElemModel>>, n: Seq<char>) -> Option<ElemModel>
    decreases cs.len(),
{
    if cs.len() == 0 {
        None
    } else if child_named(cs[0], n) {
        cs[0]
    } else {
        spec_first_child(cs.subrange(1, cs.len() as int), n)
    }
}

/// Relies on xmltree::Element::parse: it returns the first root
/// element of the document, or an error when the bytes are not XML.
#[verifier::external_body]
pub(crate) fn parse_element(bytes: &[u8]) -> (r: Result<xmltree::Element, xmltree::ParseError>)
    ensures
        r is Ok <==> parsed_doc(bytes@) is Some,
        r matches Ok(e) ==> parsed_doc(bytes@) == Some(elem_model(e)),
{
    xmltree::Element::parse(bytes)
}

/// Relies on xmltree::Element::get_child with a tag name: it returns
/// the first child element with that name, skipping other nodes.
#[verifier::external_body]
pub(crate) fn get_child<'a>(e: &'a xmltree::Element, name: &str) -> (r: Option<
    &'a xmltree::Element,
>)
    ensures
        r is Some <==> spec_first_child(elem_model(*e).children, name@) is Some,
        r matches Some(c) ==> spec_first_child(elem_model(*e).children, name@) == Some(
            elem_model(*c),
        ),
{
    e.get_child(name)
}

/// Relies on the public children field of xmltree::Element: its
/// length counts every child node.
#[verifier::external_body]
pub(crate) fn child_count(e: &xmltree::Element) -> (r: usize)
    ensures
        r == elem_model(*e).children.len(),
{
    e.children.len()
}

/// Relies on xmltree::XMLNode::as_element: the child node at the
/// index, where that node is an element.
#[verifier::external_body]
pub(crate) fn child_at<'a>(e: &'a xmltree::Element, i: usize) -> (r: Option<&'a xmltree::Element>)
    requires
        i < elem_model(*e).children.len(),
    ensures
        r is Some <==> elem_model(*e).children[i as int] is Some,
        r matches Some(c) ==> elem_model(*e).children[i as int] == Some(elem_model(*c)),
{
    e.children[i].as_element()
}

/// Relies on xmltree::Element::get_text: the concatenated text and
/// cdata content of the element, or nothing where none exists.
#[verifier::external_body]
pub(crate) fn get_text(e: &xmltree::Element) -> (r: Option<String>)
    ensures
        r is Some <==> elem_model(*e).text is Some,
        r matches Some(t) ==> elem_model(*e).text == Some(t@),
{
    e.get_text().map(|c| c.into_owned())
}

/// Relies on the public attributes map of xmltree::Element: the value
/// stored under the attribute name.
#[verifier::external_body]
pub(crate) fn get_attr(e: &xmltree::Element, name: &str) -> (r: Option<String>)
    ensures
        r is Some <==> elem_model(*e).attrs.dom().contains(name@),
        r matches Some(v) ==> elem_model(*e).attrs[name@] == v@,
{
    e.attributes.get(name).cloned()
}

} // verus!

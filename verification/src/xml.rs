//! Reading and writing SVG documents with `xmltree`, and the two halves of a conversion:
//! preparing a document (parse, check, find its paints) and rendering a recolored one.
use vstd::prelude::*;
use vstd::string::StringExecFns;
use vstd::utf8::{decode_utf8, valid_utf8};
use crate::document::{
    element_sites, ensure_default_fill, law_default_fill_keeps_well_formed,
    law_recolor_keeps_well_formed, paint_sites, recolor_element, transform_element, well_formed,
    with_default_fill, ElementModel, NodeModel, SvgElement, SvgNode,
};
use crate::markup::{add_svg_namespace, repair_xlink_namespace, with_svg_namespace, xlink_repaired};
use crate::style::pair_views;
use crate::text::{chars_of, views};

verus! {

#[verifier::external_type_specification]
#[verifier::external_body]
pub struct ExXmlElement(xmltree::Element);

#[verifier::external_type_specification]
#[verifier::external_body]
pub struct ExXmlNode(xmltree::XMLNode);

#[verifier::external_type_specification]
#[verifier::external_body]
pub struct ExXmlParseError(xmltree::ParseError);

#[verifier::external_type_specification]
#[verifier::external_body]
pub struct ExXmlWriteError(xmltree::Error);

#[verifier::external_type_specification]
#[verifier::external_body]
pub struct ExFromUtf8Error(std::string::FromUtf8Error);

/// Two trees are the same up to the order of each element's attributes (which `xmltree` keeps
/// in a `HashMap`).
pub open spec fn same_tree(a: ElementModel, b: ElementModel) -> bool
    decreases a, 1nat,
{
    &&& a.prefix == b.prefix
    &&& a.namespace == b.namespace
    &&& a.namespaces == b.namespaces
    &&& a.name == b.name
    &&& a.attributes.to_multiset() == b.attributes.to_multiset()
    &&& same_nodes(a.children, b.children)
}

pub open spec fn same_nodes(s: Seq<NodeModel>, t: Seq<NodeModel>) -> bool
    decreases s, 0nat,
{
    if s.len() == 0 {
        t.len() == 0
    } else {
        &&& t.len() > 0
        &&& same_nodes(s.drop_last(), t.drop_last())
        &&& match s.last() {
            NodeModel::Element(x) => match t.last() {
                NodeModel::Element(y) => same_tree(x, y),
                _ => false,
            },
            other => other == t.last(),
        }
    }
}

/// The element tree `xmltree::Element::parse` builds from the UTF-8 encoding of a text, or
/// `None` when it rejects the text.
pub uninterp spec fn xmltree_tree(text: Seq<char>) -> Option<ElementModel>;

/// The message (`Display`) of the error `xmltree::Element::parse` gives for a text it
/// rejects.
pub uninterp spec fn xmltree_error_text(text: Seq<char>) -> Seq<char>;

/// The bytes `xmltree::Element::write_with_config` writes for a tree, without indentation or
/// XML declaration, attributes in the order the tree lists them.
pub uninterp spec fn xmltree_text(tree: ElementModel) -> Seq<u8>;

/// `xmltree::Element::parse` on the UTF-8 bytes of `text`, the resulting tree taken over into
/// `SvgElement`. Claimed: it succeeds exactly when the named parse does, and gives that tree;
/// the order of each element's attributes is left open, since xmltree holds them in a
/// `HashMap`; attribute names and namespace prefixes are map keys, so none repeats. On
/// failure, the error displays the named message for the text.
#[verifier::external_body]
fn xml_parse(text: &str) -> (r: Result<SvgElement, xmltree::ParseError>)
    ensures
        r is Ok <==> xmltree_tree(text@) is Some,
        r matches Ok(e) ==> same_tree(e@, xmltree_tree(text@)->0) && well_formed(e@),
        r matches Err(e) ==> forall|s: String|
            #[trigger] vstd::string::to_string_from_display_ensures::<xmltree::ParseError>(&e, s)
                ==> s@ == xmltree_error_text(text@),
{
    xmltree::Element::parse(text.as_bytes()).map(element_from_xml)
}

/// Takes an `xmltree::Element` over into an `SvgElement`, field by field.
#[verifier::external_body]
fn element_from_xml(e: xmltree::Element) -> SvgElement {
    SvgElement {
        prefix: e.prefix,
        namespace: e.namespace,
        namespaces: e.namespaces.map(|n| n.0.into_iter().collect()),
        name: e.name,
        attributes: e.attributes.into_iter().collect(),
        children: e.children.into_iter().map(node_from_xml).collect(),
    }
}

/// Takes an `xmltree::XMLNode` over into an `SvgNode`, variant by variant.
#[verifier::external_body]
fn node_from_xml(n: xmltree::XMLNode) -> SvgNode {
    match n {
        xmltree::XMLNode::Element(e) => SvgNode::Element(element_from_xml(e)),
        xmltree::XMLNode::Comment(s) => SvgNode::Comment(s),
        xmltree::XMLNode::CData(s) => SvgNode::CData(s),
        xmltree::XMLNode::Text(s) => SvgNode::Text(s),
        xmltree::XMLNode::ProcessingInstruction(t, d) => SvgNode::ProcessingInstruction(t, d),
    }
}

/// Builds the `xmltree::Element` for an `SvgElement`, field by field.
#[verifier::external_body]
fn element_to_xml(e: &SvgElement) -> xmltree::Element {
    xmltree::Element {
        prefix: e.prefix.clone(),
        namespace: e.namespace.clone(),
        namespaces: e.namespaces.as_ref().map(|n| xmltree::Namespace(n.iter().cloned().collect())),
        name: e.name.clone(),
        attributes: e.attributes.iter().cloned().collect(),
        children: e.children.iter().map(node_to_xml).collect(),
    }
}

/// Builds the `xmltree::XMLNode` for an `SvgNode`, variant by variant.
#[verifier::external_body]
fn node_to_xml(n: &SvgNode) -> xmltree::XMLNode {
    match n {
        SvgNode::Element(e) => xmltree::XMLNode::Element(element_to_xml(e)),
        SvgNode::Comment(s) => xmltree::XMLNode::Comment(s.clone()),
        SvgNode::CData(s) => xmltree::XMLNode::CData(s.clone()),
        SvgNode::Text(s) => xmltree::XMLNode::Text(s.clone()),
        SvgNode::ProcessingInstruction(t, d) => xmltree::XMLNode::ProcessingInstruction(t.clone(), d.clone()),
    }
}

/// `xmltree::Element::write_with_config` with indentation and the XML declaration switched
/// off, into a `Vec<u8>`. Claimed: it succeeds, and the bytes are the named text of the tree
/// with its attributes in some order (xmltree walks them out of a `HashMap`); that text is
/// UTF-8, as the writer only ever writes string slices. The writer's errors are I/O errors of
/// the sink, which a `Vec` never gives, and end tags that do not match the open element, which
/// xmltree never writes (it closes each element with the name it opened it with).
/// The tree must be well formed: a map cannot hold a repeated attribute name.
#[verifier::external_body]
fn xml_write(root: &SvgElement) -> (r: Result<Vec<u8>, xmltree::Error>)
    requires
        well_formed(root@),
    ensures
        r is Ok,
        r matches Ok(bytes) ==> exists|t: ElementModel|
            #[trigger] same_tree(t, root@) && bytes@ == xmltree_text(t) && valid_utf8(bytes@),
{
    let mut output = Vec::new();
    let config = xmltree::EmitterConfig::new().perform_indent(false).write_document_declaration(false);
    element_to_xml(root).write_with_config(&mut output, config).map(|_| output)
}

/// `String::from_utf8`: succeeds exactly on valid UTF-8, and then holds the decoded text.
#[verifier::external_body]
fn string_from_utf8(bytes: Vec<u8>) -> (r: Result<String, std::string::FromUtf8Error>)
    ensures
        r is Ok <==> valid_utf8(bytes@),
        r matches Ok(s) ==> s@ == decode_utf8(bytes@),
{
    String::from_utf8(bytes)
}

/// Parses an SVG document, after the xlink repair of `repair_xlink_namespace`.
///
/// Errors: the repair's message, or xmltree's message (`xmltree_error_text`) when it rejects
/// the text.
pub fn parse_svg_document(svg: &str) -> (r: Result<SvgElement, String>)
    ensures
        match xlink_repaired(svg@) {
            Err(message) => r matches Err(e) && e@ == message,
            Ok(text) => {
                &&& r is Ok <==> xmltree_tree(text) is Some
                &&& r matches Ok(e) ==> same_tree(e@, xmltree_tree(text)->0) && well_formed(e@)
                &&& r matches Err(e) ==> e@ == xmltree_error_text(text)
            },
        },
{
    let text = repair_xlink_namespace(svg)?;
    match xml_parse(text.as_str()) {
        Ok(root) => Ok(root),
        Err(error) => Err(error.to_string()),
    }
}

/// Writes a document out: xmltree's text without indentation or XML declaration, with the
/// SVG namespace added when it is missing (`with_svg_namespace`). A well-formed tree is
/// always written.
pub fn serialize(root: &SvgElement) -> (r: Result<String, String>)
    requires
        well_formed(root@),
    ensures
        r is Ok,
        r matches Ok(s) ==> exists|t: ElementModel|
            #[trigger] same_tree(t, root@) && valid_utf8(xmltree_text(t)) && s@
                == with_svg_namespace(decode_utf8(xmltree_text(t))),
{
    let bytes = match xml_write(root) {
        Ok(bytes) => bytes,
        Err(error) => return Err(error.to_string()),
    };
    let xml = match string_from_utf8(bytes) {
        Ok(xml) => xml,
        Err(error) => return Err(error.to_string()),
    };
    Ok(add_svg_namespace(xml.as_str()))
}

/// A parsed document ready for recoloring.
pub struct PreparedSvg {
    /// The document, its root given the default fill when it had none.
    pub root: SvgElement,
    /// The paint sites of the document as parsed, before the default fill was added.
    pub sites: Vec<String>,
}

/// The part of a conversion before any color is computed: parse the document (with the xlink
/// repair), require an `<svg>` root, list its paint sites, then give the root its default fill.
/// The default fill comes after the listing, so that it is no part of the icon's palette.
pub fn prepare_svg(svg: &str) -> (r: Result<PreparedSvg, String>)
    ensures
        match xlink_repaired(svg@) {
            Err(message) => r matches Err(e) && e@ == message,
            Ok(text) => match xmltree_tree(text) {
                None => r matches Err(e) && e@ == xmltree_error_text(text),
                Some(tree) => if tree.name == "svg"@ {
                    r matches Ok(p) && well_formed(p.root@) && exists|t: ElementModel|
                        #[trigger] same_tree(t, tree) && views(p.sites@) == element_sites(t)
                            && p.root@ == with_default_fill(t)
                } else {
                    r matches Err(e) && e@ == "document root must be an <svg> element"@
                },
            },
        },
{
    let mut root = parse_svg_document(svg)?;
    let svg_name = chars_of("svg");
    if !crate::text::chars_eq(&chars_of(root.name.as_str()), &svg_name) {
        return Err(String::from_str("document root must be an <svg> element"));
    }
    let sites = paint_sites(&root);
    let ghost parsed = root@;
    proof {
        law_default_fill_keeps_well_formed(parsed);
    }
    ensure_default_fill(&mut root);
    Ok(PreparedSvg { root, sites })
}

/// The part of a conversion after the colors are computed: recolor the document with the
/// given pairs (`transform_element`) and write it out (`serialize`).
pub fn render_svg(root: SvgElement, recoloring: &Vec<(String, String)>) -> (r: Result<String, String>)
    requires
        well_formed(root@),
    ensures
        r is Ok,
        r matches Ok(s) ==> exists|t: ElementModel|
            #[trigger] same_tree(t, recolor_element(root@, pair_views(recoloring@))) && valid_utf8(xmltree_text(t))
                && s@ == with_svg_namespace(decode_utf8(xmltree_text(t))),
{
    proof {
        law_recolor_keeps_well_formed(root@, pair_views(recoloring@));
    }
    let recolored = transform_element(root, recoloring);
    serialize(&recolored)
}

} // verus!

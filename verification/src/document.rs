//! The SVG document tree, where its paints are, and recoloring it.
//!
//! Masks are skipped everywhere: a mask's paint is alpha geometry, not visible icon color, so it
//! is neither collected nor recolored.
use vstd::prelude::*;
use vstd::string::StringExecFns;
use crate::paint::{is_color_property, is_color_property_name, is_unpainted, local_name, local_name_is, local_name_of, classify_paint, Paint};
use crate::style::{
    lemma_none_named_concat, none_named, lookup, pair_views, recolor_paint, recolored_paint, rewrite_style,
    rewrite_stylesheet, style_sites, stylesheet_sites, stylesheet_declarations, style_declarations,
    transform_style, transform_stylesheet, law_style_kept_when_unnamed,
    law_stylesheet_kept_when_unnamed,
};
use crate::text::{chars_of, views};

verus! {

/// An XML element as the converter holds it.
pub struct SvgElement {
    pub prefix: Option<String>,
    pub namespace: Option<String>,
    /// Namespace declarations in scope, prefix to URI.
    pub namespaces: Option<Vec<(String, String)>>,
    /// The local name.
    pub name: String,
    /// Attribute names (without prefix) and values.
    pub attributes: Vec<(String, String)>,
    pub children: Vec<SvgNode>,
}

/// A node inside an element.
pub enum SvgNode {
    Element(SvgElement),
    Comment(String),
    CData(String),
    Text(String),
    ProcessingInstruction(String, Option<String>),
}

/// The mathematical model of an element.
pub struct ElementModel {
    pub prefix: Option<Seq<char>>,
    pub namespace: Option<Seq<char>>,
    pub namespaces: Option<Seq<(Seq<char>, Seq<char>)>>,
    pub name: Seq<char>,
    pub attributes: Seq<(Seq<char>, Seq<char>)>,
    pub children: Seq<NodeModel>,
}

/// The mathematical model of a node.
pub enum NodeModel {
    Element(ElementModel),
    Comment(Seq<char>),
    CData(Seq<char>),
    Text(Seq<char>),
    ProcessingInstruction(Seq<char>, Option<Seq<char>>),
}

pub open spec fn option_string_model(o: Option<String>) -> Option<Seq<char>> {
    match o {
        Some(s) => Some(s@),
        None => None,
    }
}

pub open spec fn pairs_model(v: Seq<(String, String)>) -> Seq<(Seq<char>, Seq<char>)> {
    v.map_values(|p: (String, String)| (p.0@, p.1@))
}

pub open spec fn element_model(e: SvgElement) -> ElementModel
    decreases e, 2nat,
{
    ElementModel {
        prefix: option_string_model(e.prefix),
        namespace: option_string_model(e.namespace),
        namespaces: match e.namespaces {
            Some(v) => Some(pairs_model(v@)),
            None => None,
        },
        name: e.name@,
        attributes: pairs_model(e.attributes@),
        children: nodes_model(e.children@),
    }
}

pub open spec fn node_model(n: SvgNode) -> NodeModel
    decreases n, 1nat,
{
    match n {
        SvgNode::Element(e) => NodeModel::Element(element_model(e)),
        SvgNode::Comment(s) => NodeModel::Comment(s@),
        SvgNode::CData(s) => NodeModel::CData(s@),
        SvgNode::Text(s) => NodeModel::Text(s@),
        SvgNode::ProcessingInstruction(t, d) => NodeModel::ProcessingInstruction(
            t@,
            option_string_model(d),
        ),
    }
}

pub open spec fn nodes_model(s: Seq<SvgNode>) -> Seq<NodeModel>
    decreases s, 0nat,
{
    if s.len() == 0 {
        Seq::empty()
    } else {
        nodes_model(s.drop_last()).push(node_model(s.last()))
    }
}

impl View for SvgElement {
    type V = ElementModel;

    open spec fn view(&self) -> ElementModel {
        element_model(*self)
    }
}

// ---------------------------------------------------------------------------------------------
// Where the paints are
// ---------------------------------------------------------------------------------------------

pub open spec fn is_mask(e: ElementModel) -> bool {
    local_name(e.name) == "mask"@
}

pub open spec fn is_style(e: ElementModel) -> bool {
    local_name(e.name) == "style"@
}

/// The paint sites of one attribute: a color property's value (unless it is never
/// recolored), or the sites of an inline `style`.
pub open spec fn attribute_sites(a: (Seq<char>, Seq<char>)) -> Seq<Seq<char>> {
    let name = local_name(a.0);
    if is_color_property(name) {
        if is_unpainted(a.1) {
            Seq::empty()
        } else {
            seq![a.1]
        }
    } else if name == "style"@ {
        style_sites(a.1)
    } else {
        Seq::empty()
    }
}

pub open spec fn attributes_sites(attrs: Seq<(Seq<char>, Seq<char>)>) -> Seq<Seq<char>>
    decreases attrs.len(),
{
    if attrs.len() == 0 {
        Seq::empty()
    } else {
        attributes_sites(attrs.drop_last()) + attribute_sites(attrs.last())
    }
}

/// The paint sites of the stylesheets held by the text children of a `<style>` element.
pub open spec fn text_sites(nodes: Seq<NodeModel>) -> Seq<Seq<char>>
    decreases nodes.len(),
{
    if nodes.len() == 0 {
        Seq::empty()
    } else {
        text_sites(nodes.drop_last()) + match nodes.last() {
            NodeModel::Text(t) => stylesheet_sites(t),
            _ => Seq::empty(),
        }
    }
}

/// Every paint site of an element and its descendants, in document order: an embedded
/// stylesheet's first, then the attributes', then the child elements'. A mask has none.
pub open spec fn element_sites(e: ElementModel) -> Seq<Seq<char>>
    decreases e, 1nat,
{
    if is_mask(e) {
        Seq::empty()
    } else {
        (if is_style(e) {
            text_sites(e.children)
        } else {
            Seq::empty()
        }) + attributes_sites(e.attributes) + children_sites(e.children)
    }
}

pub open spec fn children_sites(nodes: Seq<NodeModel>) -> Seq<Seq<char>>
    decreases nodes, 0nat,
{
    if nodes.len() == 0 {
        Seq::empty()
    } else {
        children_sites(nodes.drop_last()) + match nodes.last() {
            NodeModel::Element(c) => element_sites(c),
            _ => Seq::empty(),
        }
    }
}

// ---------------------------------------------------------------------------------------------
// Recoloring
// ---------------------------------------------------------------------------------------------

/// One attribute after recoloring: a color property's value replaced, an inline style's
/// declarations rewritten, anything else kept.
pub open spec fn recolor_attribute(a: (Seq<char>, Seq<char>), m: Seq<(Seq<char>, Seq<char>)>) -> (
    Seq<char>,
    Seq<char>,
) {
    let name = local_name(a.0);
    if is_color_property(name) {
        match recolored_paint(a.1, m) {
            Some(r) => (a.0, r),
            None => a,
        }
    } else if name == "style"@ {
        (a.0, rewrite_style(a.1, m))
    } else {
        a
    }
}

pub open spec fn recolor_attributes(
    attrs: Seq<(Seq<char>, Seq<char>)>,
    m: Seq<(Seq<char>, Seq<char>)>,
) -> Seq<(Seq<char>, Seq<char>)> {
    attrs.map_values(|a: (Seq<char>, Seq<char>)| recolor_attribute(a, m))
}

/// An element after recoloring. A mask is kept whole; otherwise its attributes are recolored,
/// the text of a `<style>` element is rewritten as a stylesheet, and child elements are
/// recolored in turn. Names, namespaces, comments and the tree's shape are kept.
pub open spec fn recolor_element(e: ElementModel, m: Seq<(Seq<char>, Seq<char>)>) -> ElementModel
    decreases e, 1nat,
{
    if is_mask(e) {
        e
    } else {
        ElementModel {
            attributes: recolor_attributes(e.attributes, m),
            children: recolor_children(e.children, is_style(e), m),
            ..e
        }
    }
}

pub open spec fn recolor_children(
    nodes: Seq<NodeModel>,
    in_style: bool,
    m: Seq<(Seq<char>, Seq<char>)>,
) -> Seq<NodeModel>
    decreases nodes, 0nat,
{
    if nodes.len() == 0 {
        Seq::empty()
    } else {
        recolor_children(nodes.drop_last(), in_style, m).push(
            match nodes.last() {
                NodeModel::Element(c) => NodeModel::Element(recolor_element(c, m)),
                NodeModel::Text(t) => if in_style {
                    NodeModel::Text(rewrite_stylesheet(t, m))
                } else {
                    NodeModel::Text(t)
                },
                other => other,
            },
        )
    }
}

/// The element has an attribute whose local name is `fill`.
pub open spec fn has_fill(e: ElementModel) -> bool {
    exists|k: int| 0 <= k < e.attributes.len() && local_name(#[trigger] e.attributes[k].0) == "fill"@
}

/// A root without a `fill` gets SVG's default paint, `rgb(0,0,0)`, spelled out.
pub open spec fn with_default_fill(e: ElementModel) -> ElementModel {
    if has_fill(e) {
        e
    } else {
        ElementModel { attributes: e.attributes.push(("fill"@, "rgb(0,0,0)"@)), ..e }
    }
}

/// No two pairs share a first component.
pub open spec fn distinct_keys(pairs: Seq<(Seq<char>, Seq<char>)>) -> bool {
    forall|i: int, j: int| 0 <= i < j < pairs.len() ==> #[trigger] pairs[i].0 != #[trigger] pairs[j].0
}

/// Every element of the tree names each attribute and each namespace prefix at most once, as
/// an XML document's elements do.
pub open spec fn well_formed(e: ElementModel) -> bool
    decreases e, 1nat,
{
    &&& distinct_keys(e.attributes)
    &&& match e.namespaces {
        Some(n) => distinct_keys(n),
        None => true,
    }
    &&& nodes_well_formed(e.children)
}

pub open spec fn nodes_well_formed(nodes: Seq<NodeModel>) -> bool
    decreases nodes, 0nat,
{
    if nodes.len() == 0 {
        true
    } else {
        &&& nodes_well_formed(nodes.drop_last())
        &&& match nodes.last() {
            NodeModel::Element(c) => well_formed(c),
            _ => true,
        }
    }
}

// ---------------------------------------------------------------------------------------------
// Lemmas and laws
// ---------------------------------------------------------------------------------------------

pub proof fn lemma_nodes_model(s: Seq<SvgNode>)
    ensures
        nodes_model(s).len() == s.len(),
        forall|i: int| 0 <= i < s.len() ==> #[trigger] nodes_model(s)[i] == node_model(s[i]),
    decreases s.len(),
{
    if s.len() > 0 {
        lemma_nodes_model(s.drop_last());
        assert forall|i: int| 0 <= i < s.len() implies #[trigger] nodes_model(s)[i] == node_model(
            s[i],
        ) by {
            if i < s.len() - 1 {
                assert(s.drop_last()[i] == s[i]);
            }
        }
    }
}

pub proof fn lemma_recolor_children_shape(
    nodes: Seq<NodeModel>,
    in_style: bool,
    m: Seq<(Seq<char>, Seq<char>)>,
)
    ensures
        recolor_children(nodes, in_style, m).len() == nodes.len(),
    decreases nodes.len(),
{
    if nodes.len() > 0 {
        lemma_recolor_children_shape(nodes.drop_last(), in_style, m);
    }
}

proof fn lemma_attributes_unnamed(
    attrs: Seq<(Seq<char>, Seq<char>)>,
    m: Seq<(Seq<char>, Seq<char>)>,
)
    requires
        none_named(m, attributes_sites(attrs)),
    ensures
        recolor_attributes(attrs, m) == attrs,
    decreases attrs.len(),
{
    if attrs.len() > 0 {
        let init = attrs.drop_last();
        let a = attrs.last();
        lemma_none_named_concat(m, attributes_sites(init), attribute_sites(a));
        lemma_attributes_unnamed(init, m);
        let name = local_name(a.0);
        if is_color_property(name) {
            if !is_unpainted(a.1) {
                assert(attribute_sites(a)[0] == a.1);
            }
        } else if name == "style"@ {
            law_style_kept_when_unnamed(a.1, m);
        }
        assert forall|k: int| 0 <= k < attrs.len() implies recolor_attributes(attrs, m)[k]
            == attrs[k] by {
            if k < attrs.len() - 1 {
                assert(recolor_attributes(init, m)[k] == init[k]);
            }
        }
        assert(recolor_attributes(attrs, m) =~= attrs);
    }
}

proof fn lemma_text_unnamed(nodes: Seq<NodeModel>, m: Seq<(Seq<char>, Seq<char>)>, k: int)
    requires
        none_named(m, text_sites(nodes)),
        0 <= k < nodes.len(),
        nodes[k] is Text,
    ensures
        rewrite_stylesheet(nodes[k]->Text_0, m) == nodes[k]->Text_0,
    decreases nodes.len(),
{
    let init = nodes.drop_last();
    let extra = match nodes.last() {
        NodeModel::Text(t) => stylesheet_sites(t),
        _ => Seq::empty(),
    };
    lemma_none_named_concat(m, text_sites(init), extra);
    if k == nodes.len() - 1 {
        law_stylesheet_kept_when_unnamed(nodes[k]->Text_0, m);
    } else {
        assert(init[k] == nodes[k]);
        lemma_text_unnamed(init, m, k);
    }
}

proof fn lemma_children_unnamed(
    nodes: Seq<NodeModel>,
    in_style: bool,
    m: Seq<(Seq<char>, Seq<char>)>,
)
    requires
        none_named(m, children_sites(nodes)),
        in_style ==> none_named(m, text_sites(nodes)),
    ensures
        recolor_children(nodes, in_style, m) == nodes,
    decreases nodes, 0nat,
{
    if nodes.len() > 0 {
        let init = nodes.drop_last();
        let last = nodes.last();
        let extra = match last {
            NodeModel::Element(c) => element_sites(c),
            _ => Seq::empty(),
        };
        lemma_none_named_concat(m, children_sites(init), extra);
        if in_style {
            let t_extra = match last {
                NodeModel::Text(t) => stylesheet_sites(t),
                _ => Seq::empty(),
            };
            lemma_none_named_concat(m, text_sites(init), t_extra);
            if let NodeModel::Text(t) = last {
                lemma_text_unnamed(nodes, m, nodes.len() - 1);
            }
        }
        lemma_children_unnamed(init, in_style, m);
        if let NodeModel::Element(c) = last {
            law_element_kept_when_unnamed(c, m);
        }
        assert(recolor_children(nodes, in_style, m) =~= init.push(last));
        assert(init.push(last) =~= nodes);
    }
}

/// Recoloring leaves an element unchanged when no pair of the recoloring names any of its
/// paint sites; in particular the empty recoloring changes nothing.
pub proof fn law_element_kept_when_unnamed(e: ElementModel, m: Seq<(Seq<char>, Seq<char>)>)
    requires
        none_named(m, element_sites(e)),
    ensures
        recolor_element(e, m) == e,
    decreases e, 1nat,
{
    if !is_mask(e) {
        let style_part = if is_style(e) {
            text_sites(e.children)
        } else {
            Seq::empty()
        };
        lemma_none_named_concat(m, style_part + attributes_sites(e.attributes), children_sites(e.children));
        lemma_none_named_concat(m, style_part, attributes_sites(e.attributes));
        lemma_attributes_unnamed(e.attributes, m);
        lemma_children_unnamed(e.children, is_style(e), m);
    }
}

/// A mask is returned whole by recoloring, and contributes no paint sites.
pub proof fn law_masks_untouched(e: ElementModel, m: Seq<(Seq<char>, Seq<char>)>)
    requires
        is_mask(e),
    ensures
        recolor_element(e, m) == e,
        element_sites(e) == Seq::<Seq<char>>::empty(),
{
}

/// Recoloring keeps an element's name, namespaces, attribute names and number of children.
pub proof fn law_recolor_keeps_shape(e: ElementModel, m: Seq<(Seq<char>, Seq<char>)>)
    ensures
        recolor_element(e, m).name == e.name,
        recolor_element(e, m).prefix == e.prefix,
        recolor_element(e, m).namespace == e.namespace,
        recolor_element(e, m).namespaces == e.namespaces,
        recolor_element(e, m).attributes.len() == e.attributes.len(),
        forall|k: int|
            0 <= k < e.attributes.len() ==> #[trigger] recolor_element(e, m).attributes[k].0
                == e.attributes[k].0,
        recolor_element(e, m).children.len() == e.children.len(),
{
    lemma_recolor_children_shape(e.children, is_style(e), m);
}

/// Adding the default fill leaves a root that has a fill, and does nothing to one that had one.
pub proof fn law_default_fill(e: ElementModel)
    ensures
        has_fill(with_default_fill(e)),
        has_fill(e) ==> with_default_fill(e) == e,
        with_default_fill(with_default_fill(e)) == with_default_fill(e),
{
    if !has_fill(e) {
        let f = with_default_fill(e);
        let k: int = e.attributes.len() as int;
        reveal_strlit("fill");
        assert(local_name("fill"@) == "fill"@) by {
            lemma_local_name_plain("fill"@);
        }
        assert(local_name(f.attributes[k].0) == "fill"@);
    }
}

/// A root with no attribute whose local name is `fill` gets exactly one more attribute,
/// `fill="rgb(0,0,0)"`, after all of its own, whatever those are; a root with such an attribute
/// is left as it is.
pub proof fn law_default_fill_exact(e: ElementModel)
    ensures
        (forall|k: int| 0 <= k < e.attributes.len() ==> local_name(#[trigger] e.attributes[k].0) != "fill"@)
            ==> with_default_fill(e) == (ElementModel {
            attributes: e.attributes.push(("fill"@, "rgb(0,0,0)"@)),
            ..e
        }),
        (exists|k: int| 0 <= k < e.attributes.len() && local_name(#[trigger] e.attributes[k].0) == "fill"@)
            ==> with_default_fill(e) == e,
{
}

proof fn lemma_local_name_plain(s: Seq<char>)
    requires
        forall|i: int| 0 <= i < s.len() ==> s[i] != ':',
    ensures
        local_name(s) == s,
    decreases s.len(),
{
    lemma_no_colon(s);
}

proof fn lemma_no_colon(s: Seq<char>)
    requires
        forall|i: int| 0 <= i < s.len() ==> s[i] != ':',
    ensures
        crate::paint::last_index_of(s, ':') is None,
    decreases s.len(),
{
    if s.len() > 0 {
        assert(s.last() == s[s.len() - 1]);
        assert forall|i: int| 0 <= i < s.len() - 1 implies s.drop_last()[i] != ':' by {
            assert(s.drop_last()[i] == s[i]);
        }
        lemma_no_colon(s.drop_last());
    }
}

/// Recoloring keeps a tree well formed: it changes attribute values only.
pub proof fn law_recolor_keeps_well_formed(e: ElementModel, m: Seq<(Seq<char>, Seq<char>)>)
    requires
        well_formed(e),
    ensures
        well_formed(recolor_element(e, m)),
    decreases e, 1nat,
{
    if !is_mask(e) {
        law_recolor_keeps_shape(e, m);
        lemma_recolor_children_well_formed(e.children, is_style(e), m);
    }
}

proof fn lemma_recolor_children_well_formed(
    nodes: Seq<NodeModel>,
    in_style: bool,
    m: Seq<(Seq<char>, Seq<char>)>,
)
    requires
        nodes_well_formed(nodes),
    ensures
        nodes_well_formed(recolor_children(nodes, in_style, m)),
    decreases nodes, 0nat,
{
    if nodes.len() > 0 {
        lemma_recolor_children_well_formed(nodes.drop_last(), in_style, m);
        let r = recolor_children(nodes, in_style, m);
        assert(r.drop_last() =~= recolor_children(nodes.drop_last(), in_style, m));
        if let NodeModel::Element(c) = nodes.last() {
            law_recolor_keeps_well_formed(c, m);
        }
    }
}

/// Adding the default fill keeps a tree well formed.
pub proof fn law_default_fill_keeps_well_formed(e: ElementModel)
    requires
        well_formed(e),
    ensures
        well_formed(with_default_fill(e)),
{
    if !has_fill(e) {
        reveal_strlit("fill");
        lemma_local_name_plain("fill"@);
        let f = with_default_fill(e);
        assert forall|i: int, j: int| 0 <= i < j < f.attributes.len() implies #[trigger] f.attributes[i].0
            != #[trigger] f.attributes[j].0 by {
            if j == e.attributes.len() {
                assert(local_name(e.attributes[i].0) != "fill"@);
            } else {
                assert(e.attributes[i].0 != e.attributes[j].0);
            }
        }
    }
}

/// `r` keeps the frame of `e` at every depth: the same names, namespaces and attribute names,
/// the same children in the same places (an element where there was an element, text where
/// there was text, any other node unchanged), and every mask exactly as it was.
pub open spec fn kept_frame(r: ElementModel, e: ElementModel) -> bool
    decreases e, 1nat,
{
    &&& is_mask(e) ==> r == e
    &&& r.name == e.name
    &&& r.prefix == e.prefix
    &&& r.namespace == e.namespace
    &&& r.namespaces == e.namespaces
    &&& r.attributes.len() == e.attributes.len()
    &&& forall|k: int| 0 <= k < e.attributes.len() ==> #[trigger] r.attributes[k].0 == e.attributes[k].0
    &&& nodes_kept_frame(r.children, e.children)
}

pub open spec fn nodes_kept_frame(rs: Seq<NodeModel>, es: Seq<NodeModel>) -> bool
    decreases es, 0nat,
{
    if es.len() == 0 {
        rs.len() == 0
    } else {
        &&& rs.len() > 0
        &&& nodes_kept_frame(rs.drop_last(), es.drop_last())
        &&& match es.last() {
            NodeModel::Element(x) => match rs.last() {
                NodeModel::Element(y) => kept_frame(y, x),
                _ => false,
            },
            NodeModel::Text(_) => rs.last() is Text,
            other => rs.last() == other,
        }
    }
}

proof fn lemma_kept_frame_refl(e: ElementModel)
    ensures
        kept_frame(e, e),
    decreases e, 1nat,
{
    lemma_nodes_kept_frame_refl(e.children);
}

proof fn lemma_nodes_kept_frame_refl(es: Seq<NodeModel>)
    ensures
        nodes_kept_frame(es, es),
    decreases es, 0nat,
{
    if es.len() > 0 {
        lemma_nodes_kept_frame_refl(es.drop_last());
        if let NodeModel::Element(x) = es.last() {
            lemma_kept_frame_refl(x);
        }
    }
}

/// Recoloring keeps the frame of the tree at every depth (`kept_frame`): in particular every
/// mask, however deep, comes out exactly as it went in, and only attribute values and the text
/// of `<style>` elements can change.
pub proof fn law_recolor_keeps_frame(e: ElementModel, m: Seq<(Seq<char>, Seq<char>)>)
    ensures
        kept_frame(recolor_element(e, m), e),
    decreases e, 1nat,
{
    if is_mask(e) {
        lemma_kept_frame_refl(e);
    } else {
        law_recolor_keeps_shape(e, m);
        lemma_recolor_children_frame(e.children, is_style(e), m);
    }
}

proof fn lemma_recolor_children_frame(
    nodes: Seq<NodeModel>,
    in_style: bool,
    m: Seq<(Seq<char>, Seq<char>)>,
)
    ensures
        nodes_kept_frame(recolor_children(nodes, in_style, m), nodes),
    decreases nodes, 0nat,
{
    if nodes.len() > 0 {
        lemma_recolor_children_frame(nodes.drop_last(), in_style, m);
        let r = recolor_children(nodes, in_style, m);
        assert(r.drop_last() =~= recolor_children(nodes.drop_last(), in_style, m));
        if let NodeModel::Element(c) = nodes.last() {
            law_recolor_keeps_frame(c, m);
        }
    }
}

/// `a` and `b` differ at most inside masks: the same tree, except that what a mask holds (its
/// attributes and descendants) may differ.
pub open spec fn same_outside_masks(a: ElementModel, b: ElementModel) -> bool
    decreases a, 1nat,
{
    &&& a.name == b.name
    &&& !is_mask(a) ==> {
        &&& a.prefix == b.prefix
        &&& a.namespace == b.namespace
        &&& a.namespaces == b.namespaces
        &&& a.attributes == b.attributes
        &&& nodes_same_outside_masks(a.children, b.children)
    }
}

pub open spec fn nodes_same_outside_masks(s: Seq<NodeModel>, t: Seq<NodeModel>) -> bool
    decreases s, 0nat,
{
    if s.len() == 0 {
        t.len() == 0
    } else {
        &&& t.len() > 0
        &&& nodes_same_outside_masks(s.drop_last(), t.drop_last())
        &&& match s.last() {
            NodeModel::Element(x) => match t.last() {
                NodeModel::Element(y) => same_outside_masks(x, y),
                _ => false,
            },
            other => t.last() == other,
        }
    }
}

proof fn lemma_text_sites_outside_masks(s: Seq<NodeModel>, t: Seq<NodeModel>)
    requires
        nodes_same_outside_masks(s, t),
    ensures
        text_sites(s) == text_sites(t),
    decreases s.len(),
{
    if s.len() > 0 {
        lemma_text_sites_outside_masks(s.drop_last(), t.drop_last());
    }
}

/// What masks hold has no influence outside them: two trees that differ only inside masks
/// have the same paint sites (so the same tones, bounds and one-color test follow from them),
/// and recoloring both with the same pairs gives trees that again differ only inside masks.
pub proof fn law_masks_do_not_influence(
    a: ElementModel,
    b: ElementModel,
    m: Seq<(Seq<char>, Seq<char>)>,
)
    requires
        same_outside_masks(a, b),
    ensures
        element_sites(a) == element_sites(b),
        same_outside_masks(recolor_element(a, m), recolor_element(b, m)),
    decreases a, 1nat,
{
    if !is_mask(a) {
        lemma_text_sites_outside_masks(a.children, b.children);
        lemma_nodes_outside_masks(a.children, b.children, is_style(a), m);
    }
}

proof fn lemma_nodes_outside_masks(
    s: Seq<NodeModel>,
    t: Seq<NodeModel>,
    in_style: bool,
    m: Seq<(Seq<char>, Seq<char>)>,
)
    requires
        nodes_same_outside_masks(s, t),
    ensures
        children_sites(s) == children_sites(t),
        nodes_same_outside_masks(
            recolor_children(s, in_style, m),
            recolor_children(t, in_style, m),
        ),
    decreases s, 0nat,
{
    if s.len() > 0 {
        lemma_nodes_outside_masks(s.drop_last(), t.drop_last(), in_style, m);
        let rs = recolor_children(s, in_style, m);
        let rt = recolor_children(t, in_style, m);
        assert(rs.drop_last() =~= recolor_children(s.drop_last(), in_style, m));
        assert(rt.drop_last() =~= recolor_children(t.drop_last(), in_style, m));
        if let NodeModel::Element(x) = s.last() {
            if let NodeModel::Element(y) = t.last() {
                law_masks_do_not_influence(x, y, m);
            }
        }
    }
}

proof fn lemma_attributes_sites_include(attrs: Seq<(Seq<char>, Seq<char>)>, k: int)
    requires
        0 <= k < attrs.len(),
    ensures
        forall|x: Seq<char>| attribute_sites(attrs[k]).contains(x) ==> #[trigger] attributes_sites(
            attrs,
        ).contains(x),
    decreases attrs.len(),
{
    let init = attrs.drop_last();
    let tail = attribute_sites(attrs.last());
    assert forall|x: Seq<char>| attribute_sites(attrs[k]).contains(x) implies #[trigger] attributes_sites(
        attrs,
    ).contains(x) by {
        let whole = attributes_sites(init) + tail;
        if k == attrs.len() - 1 {
            let i = choose|i: int| 0 <= i < tail.len() && tail[i] == x;
            assert(whole[attributes_sites(init).len() + i] == x);
        } else {
            assert(init[k] == attrs[k]);
            lemma_attributes_sites_include(init, k);
            assert(attributes_sites(init).contains(x));
            let i = choose|i: int| 0 <= i < attributes_sites(init).len() && attributes_sites(init)[i] == x;
            assert(whole[i] == x);
        }
    }
}

/// Every element other than a mask is recolored: each of its color-property attributes whose
/// painted value the recoloring names gets the replacement of the first pair that names it,
/// and that value is one of the element's paint sites.
pub proof fn law_non_mask_paints_recolored(
    e: ElementModel,
    m: Seq<(Seq<char>, Seq<char>)>,
    k: int,
)
    requires
        local_name(e.name) != "mask"@,
        0 <= k < e.attributes.len(),
        is_color_property(local_name(e.attributes[k].0)),
        !is_unpainted(e.attributes[k].1),
        lookup(m, e.attributes[k].1) is Some,
    ensures
        recolor_element(e, m).attributes[k] == (
            e.attributes[k].0,
            lookup(m, e.attributes[k].1)->0,
        ),
        element_sites(e).contains(e.attributes[k].1),
{
    let a = e.attributes[k];
    assert(recolor_attributes(e.attributes, m)[k] == recolor_attribute(a, m));
    assert(attribute_sites(a) == seq![a.1]);
    assert(attribute_sites(a)[0] == a.1);
    lemma_attributes_sites_include(e.attributes, k);
    assert(attributes_sites(e.attributes).contains(a.1));
    let style_part = if is_style(e) {
        text_sites(e.children)
    } else {
        Seq::empty()
    };
    let i = choose|i: int| 0 <= i < attributes_sites(e.attributes).len() && attributes_sites(e.attributes)[i] == a.1;
    let whole = style_part + attributes_sites(e.attributes) + children_sites(e.children);
    assert(whole[style_part.len() + i] == a.1);
    assert(element_sites(e) == whole);
}

proof fn lemma_recolor_children_at(
    nodes: Seq<NodeModel>,
    in_style: bool,
    m: Seq<(Seq<char>, Seq<char>)>,
    j: int,
)
    requires
        0 <= j < nodes.len(),
        nodes[j] is Element,
    ensures
        recolor_children(nodes, in_style, m)[j] == NodeModel::Element(
            recolor_element(nodes[j]->Element_0, m),
        ),
        forall|x: Seq<char>| element_sites(nodes[j]->Element_0).contains(x) ==> #[trigger] children_sites(
            nodes,
        ).contains(x),
    decreases nodes.len(),
{
    let init = nodes.drop_last();
    let c = nodes[j]->Element_0;
    lemma_recolor_children_shape(init, in_style, m);
    if j < nodes.len() - 1 {
        assert(init[j] == nodes[j]);
        lemma_recolor_children_at(init, in_style, m, j);
    }
    let tail = match nodes.last() {
        NodeModel::Element(d) => element_sites(d),
        _ => Seq::empty(),
    };
    assert forall|x: Seq<char>| element_sites(c).contains(x) implies #[trigger] children_sites(
        nodes,
    ).contains(x) by {
        let whole = children_sites(init) + tail;
        assert(children_sites(nodes) == whole);
        if j == nodes.len() - 1 {
            let i = choose|i: int| 0 <= i < tail.len() && tail[i] == x;
            assert(whole[children_sites(init).len() + i] == x);
        } else {
            assert(children_sites(init).contains(x));
            let i = choose|i: int| 0 <= i < children_sites(init).len() && children_sites(init)[i] == x;
            assert(whole[i] == x);
        }
    }
}

/// Recoloring reaches every depth under elements that are not masks: a child element of such
/// an element comes out recolored in its place, and its paint sites are among its parent's.
pub proof fn law_non_mask_recurses(e: ElementModel, m: Seq<(Seq<char>, Seq<char>)>, j: int)
    requires
        local_name(e.name) != "mask"@,
        0 <= j < e.children.len(),
        e.children[j] is Element,
    ensures
        recolor_element(e, m).children[j] == NodeModel::Element(
            recolor_element(e.children[j]->Element_0, m),
        ),
        forall|x: Seq<char>| element_sites(e.children[j]->Element_0).contains(x) ==> #[trigger] element_sites(
            e,
        ).contains(x),
{
    lemma_recolor_children_at(e.children, is_style(e), m, j);
    let c = e.children[j]->Element_0;
    let style_part = if is_style(e) {
        text_sites(e.children)
    } else {
        Seq::empty()
    };
    let front = style_part + attributes_sites(e.attributes);
    assert forall|x: Seq<char>| element_sites(c).contains(x) implies #[trigger] element_sites(e).contains(x) by {
        assert(children_sites(e.children).contains(x));
        let i = choose|i: int| 0 <= i < children_sites(e.children).len() && children_sites(e.children)[i] == x;
        let whole = front + children_sites(e.children);
        assert(whole[front.len() + i] == x);
        assert(element_sites(e) == whole);
    }
}

// ---------------------------------------------------------------------------------------------
// Executable operations
// ---------------------------------------------------------------------------------------------

fn attribute_sites_exec(name: &String, value: &String, out: &mut Vec<String>)
    ensures
        views(final(out)@) == views(old(out)@) + attribute_sites((name@, value@)),
{
    let ghost o0 = out@;
    let local = local_name_of(&chars_of(name.as_str()));
    if is_color_property_name(&local) {
        match classify_paint(value.as_str()) {
            Paint::Unpainted => {
                assert(views(out@) =~= views(o0) + attribute_sites((name@, value@)));
            },
            _ => {
                out.push(value.clone());
                assert(views(out@) =~= views(o0) + attribute_sites((name@, value@)));
            },
        }
    } else if local_name_is(name, "style") {
        let found = style_declarations(value.as_str());
        push_all(out, &found);
    } else {
        assert(views(out@) =~= views(o0) + attribute_sites((name@, value@)));
    }
}

fn push_all(out: &mut Vec<String>, found: &Vec<String>)
    ensures
        views(final(out)@) == views(old(out)@) + views(found@),
{
    let ghost o0 = out@;
    let mut i: usize = 0;
    while i < found.len()
        invariant
            i <= found.len(),
            views(out@) == views(o0) + views(found@).take(i as int),
        decreases found.len() - i,
    {
        let ghost before = out@;
        let x = found[i].clone();
        assert(x@ == views(found@)[i as int]);
        out.push(x);
        assert(views(out@) =~= views(before).push(x@));
        assert(views(found@).take(i + 1) =~= views(found@).take(i as int).push(x@));
        assert(views(out@) =~= views(o0) + views(found@).take(i + 1));
        i = i + 1;
    }
    assert(views(found@).take(found.len() as int) =~= views(found@));
}

/// Appends every paint site of `e` and its descendants.
fn collect_sites(e: &SvgElement, out: &mut Vec<String>)
    ensures
        views(final(out)@) == views(old(out)@) + element_sites(e@),
    decreases e,
{
    let ghost o0 = out@;
    let ghost em = e@;
    proof {
        lemma_nodes_model(e.children@);
    }
    if local_name_is(&e.name, "mask") {
        assert(views(out@) =~= views(o0) + element_sites(em));
        return;
    }
    if local_name_is(&e.name, "style") {
        let mut i: usize = 0;
        while i < e.children.len()
            invariant
                i <= e.children.len(),
                em == e@,
                em.children == nodes_model(e.children@),
                nodes_model(e.children@).len() == e.children@.len(),
                forall|j: int| 0 <= j < e.children@.len() ==> #[trigger] nodes_model(e.children@)[j] == node_model(e.children@[j]),
                views(out@) == views(o0) + text_sites(em.children.take(i as int)),
            decreases e.children.len() - i,
        {
            assert(em.children.take(i + 1).drop_last() =~= em.children.take(i as int));
            assert(em.children[i as int] == node_model(e.children@[i as int]));
            match &e.children[i] {
                SvgNode::Text(t) => {
                    let found = stylesheet_declarations(t.as_str());
                    push_all(out, &found);
                },
                _ => {},
            }
            assert(views(out@) =~= views(o0) + text_sites(em.children.take(i + 1)));
            i = i + 1;
        }
        assert(em.children.take(e.children.len() as int) =~= em.children);
    }
    let ghost o1 = out@;
    let mut i: usize = 0;
    while i < e.attributes.len()
        invariant
            i <= e.attributes.len(),
            em == e@,
            em.attributes == pairs_model(e.attributes@),
            views(out@) == views(o1) + attributes_sites(em.attributes.take(i as int)),
        decreases e.attributes.len() - i,
    {
        assert(em.attributes.take(i + 1).drop_last() =~= em.attributes.take(i as int));
        attribute_sites_exec(&e.attributes[i].0, &e.attributes[i].1, out);
        assert(views(out@) =~= views(o1) + attributes_sites(em.attributes.take(i + 1)));
        i = i + 1;
    }
    assert(em.attributes.take(e.attributes.len() as int) =~= em.attributes);
    let ghost o2 = out@;
    let mut i: usize = 0;
    while i < e.children.len()
        invariant
            i <= e.children.len(),
            em == e@,
            em.children == nodes_model(e.children@),
            nodes_model(e.children@).len() == e.children@.len(),
            forall|j: int| 0 <= j < e.children@.len() ==> #[trigger] nodes_model(e.children@)[j] == node_model(e.children@[j]),
            views(out@) == views(o2) + children_sites(em.children.take(i as int)),
        decreases e.children.len() - i,
    {
        assert(em.children.take(i + 1).drop_last() =~= em.children.take(i as int));
        assert(em.children[i as int] == node_model(e.children@[i as int]));
        match &e.children[i] {
            SvgNode::Element(c) => {
                collect_sites(c, out);
            },
            _ => {},
        }
        assert(views(out@) =~= views(o2) + children_sites(em.children.take(i + 1)));
        i = i + 1;
    }
    assert(em.children.take(e.children.len() as int) =~= em.children);
    assert(views(out@) =~= views(o0) + element_sites(em));
}

/// Every paint site of the document that may be recolored, in document order: the values of
/// color-property attributes, of color declarations in inline styles and in `<style>`
/// stylesheets, skipping masks and `none`/`transparent`/`url(...)`/`var(...)` paints.
pub fn paint_sites(root: &SvgElement) -> (r: Vec<String>)
    ensures
        views(r@) == element_sites(root@),
{
    let mut out: Vec<String> = Vec::new();
    collect_sites(root, &mut out);
    assert(views(out@) =~= Seq::<Seq<char>>::empty() + element_sites(root@));
    out
}

fn recolor_attribute_exec(a: (String, String), m: &Vec<(String, String)>) -> (r: (String, String))
    ensures
        (r.0@, r.1@) == recolor_attribute((a.0@, a.1@), pair_views(m@)),
{
    let (name, value) = a;
    let local = local_name_of(&chars_of(name.as_str()));
    if is_color_property_name(&local) {
        match recolor_paint(&value, m) {
            Some(replacement) => (name, replacement),
            None => (name, value),
        }
    } else if local_name_is(&name, "style") {
        let rewritten = transform_style(value.as_str(), m);
        (name, rewritten)
    } else {
        (name, value)
    }
}

/// Recolors `e` and its descendants (see `recolor_element`).
pub fn transform_element(e: SvgElement, recoloring: &Vec<(String, String)>) -> (r: SvgElement)
    ensures
        r@ == recolor_element(e@, pair_views(recoloring@)),
    decreases e,
{
    let ghost e0 = e;
    let ghost mv = pair_views(recoloring@);
    proof {
        lemma_nodes_model(e.children@);
    }
    if local_name_is(&e.name, "mask") {
        return e;
    }
    let in_style = local_name_is(&e.name, "style");
    let SvgElement { prefix, namespace, namespaces, name, attributes, children } = e;
    let mut new_attributes: Vec<(String, String)> = Vec::new();
    let mut i: usize = 0;
    while i < attributes.len()
        invariant
            i <= attributes.len(),
            mv == pair_views(recoloring@),
            pairs_model(new_attributes@) == recolor_attributes(
                pairs_model(attributes@).take(i as int),
                mv,
            ),
        decreases attributes.len() - i,
    {
        let a = (attributes[i].0.clone(), attributes[i].1.clone());
        let b = recolor_attribute_exec(a, recoloring);
        let ghost n0 = new_attributes@;
        let ghost bm = (b.0@, b.1@);
        new_attributes.push(b);
        let ghost p = (attributes@[i as int].0@, attributes@[i as int].1@);
        assert(pairs_model(attributes@).take(i + 1) =~= pairs_model(attributes@).take(i as int).push(p));
        assert(pairs_model(new_attributes@) =~= pairs_model(n0).push(bm));
        assert(recolor_attributes(pairs_model(attributes@).take(i as int).push(p), mv)
            =~= recolor_attributes(pairs_model(attributes@).take(i as int), mv).push(recolor_attribute(p, mv)));
        assert(pairs_model(new_attributes@) =~= recolor_attributes(
            pairs_model(attributes@).take(i + 1),
            mv,
        ));
        i = i + 1;
    }
    assert(pairs_model(attributes@).take(attributes.len() as int) =~= pairs_model(attributes@));
    let ghost kids = children@;
    let mut new_children: Vec<SvgNode> = Vec::new();
    for c in it: children.into_iter()
        invariant
            e0 == e,
            kids == e0.children@,
            it.seq() == kids,
            mv == pair_views(recoloring@),
            nodes_model(kids).len() == kids.len(),
            forall|j: int| 0 <= j < kids.len() ==> #[trigger] nodes_model(kids)[j] == node_model(kids[j]),
            nodes_model(new_children@) == recolor_children(
                nodes_model(kids).take(it.index() as int),
                in_style,
                mv,
            ),
    {
        let ghost k: int = it.index() as int;
        assert(c == kids[k]);
        let ghost n0 = new_children@;
        let d = match c {
            SvgNode::Element(ce) => {
                assert(e0.children@[k] == SvgNode::Element(ce));
                assert(decreases_to!(e0 => ce));
                SvgNode::Element(transform_element(ce, recoloring))
            },
            SvgNode::Text(t) => {
                if in_style {
                    SvgNode::Text(transform_stylesheet(t.as_str(), recoloring))
                } else {
                    SvgNode::Text(t)
                }
            },
            other => other,
        };
        let ghost dm = node_model(d);
        new_children.push(d);
        proof {
            let prev = nodes_model(kids).take(k);
            assert(nodes_model(kids).take(k + 1) =~= prev.push(node_model(kids[k])));
            assert(nodes_model(kids).take(k + 1).drop_last() =~= prev);
            assert(new_children@.drop_last() =~= n0);
            assert(nodes_model(new_children@) == nodes_model(n0).push(dm));
        }
    }
    assert(nodes_model(kids).take(kids.len() as int) =~= nodes_model(kids));
    SvgElement {
        prefix,
        namespace,
        namespaces,
        name,
        attributes: new_attributes,
        children: new_children,
    }
}

/// Gives the root SVG's default paint, `fill="rgb(0,0,0)"`, when it has no `fill` attribute.
pub fn ensure_default_fill(root: &mut SvgElement)
    ensures
        final(root)@ == with_default_fill(old(root)@),
{
    let ghost m0 = root@;
    let mut i: usize = 0;
    while i < root.attributes.len()
        invariant
            i <= root.attributes.len(),
            root@ == m0,
            forall|j: int| 0 <= j < i ==> local_name(#[trigger] m0.attributes[j].0) != "fill"@,
        decreases root.attributes.len() - i,
    {
        assert(m0.attributes[i as int].0 == root.attributes@[i as int].0@);
        if local_name_is(&root.attributes[i].0, "fill") {
            return;
        }
        i = i + 1;
    }
    root.attributes.push((String::from_str("fill"), String::from_str("rgb(0,0,0)")));
    assert(root@.attributes =~= m0.attributes.push(("fill"@, "rgb(0,0,0)"@)));
    assert(root@ == with_default_fill(m0));
}

} // verus!

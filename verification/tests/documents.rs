use svg_conversion_wasm::{
    paint_sites, parse_svg_document, prepare_svg, render_svg, serialize, transform_element,
    SvgNode,
};

/// Every listed paint becomes the same stand-in color.
fn every_site_to(sites: &[String], color: &str) -> Vec<(String, String)> {
    sites.iter().map(|s| (s.clone(), color.to_string())).collect()
}

fn recolor_all(svg: &str, color: &str) -> String {
    let prepared = prepare_svg(svg).unwrap();
    let sites = paint_sites(&prepared.root);
    render_svg(prepared.root, &every_site_to(&sites, color)).unwrap()
}

#[test]
fn lists_paints_of_attributes_and_inline_styles() {
    let input = r##"<svg xmlns="http://www.w3.org/2000/svg"><path fill="#000" stroke="white" style="stop-color:rgb(50%,50%,50%);opacity:.5"/></svg>"##;
    let prepared = prepare_svg(input).unwrap();
    let mut sites = prepared.sites.clone();
    sites.sort();
    assert_eq!(sites, vec!["#000", "rgb(50%,50%,50%)", "white"]);
    let result = recolor_all(input, "rgb(1,2,3)");
    assert!(result.contains("fill=\"rgb(1,2,3)\""));
    assert!(result.contains("stroke=\"rgb(1,2,3)\""));
    assert!(result.contains("stop-color:rgb(1,2,3)"));
    assert!(result.contains("opacity:.5"));
}

#[test]
fn default_fill_is_added_after_listing_and_recolored() {
    let input = r##"<svg xmlns="http://www.w3.org/2000/svg"><path fill="#00ff00"/></svg>"##;
    let prepared = prepare_svg(input).unwrap();
    assert_eq!(prepared.sites, vec!["#00ff00".to_string()]);
    let after = paint_sites(&prepared.root);
    assert_eq!(after.len(), 2);
    assert!(after.contains(&"rgb(0,0,0)".to_string()));
    let result = recolor_all(input, "rgb(255,0,255)");
    assert_eq!(result.matches("fill=\"rgb(255,0,255)\"").count(), 2);
}

#[test]
fn existing_root_fill_is_kept() {
    let input = r##"<svg xmlns="http://www.w3.org/2000/svg" fill="none"><path fill="url(#gradient)"/></svg>"##;
    let prepared = prepare_svg(input).unwrap();
    assert!(prepared.sites.is_empty());
    let result = serialize(&prepared.root).unwrap();
    assert!(result.contains("fill=\"none\""));
    assert!(result.contains("fill=\"url(#gradient)\""));
    assert!(!result.contains("rgb(0,0,0)"));
}

#[test]
fn masks_are_neither_listed_nor_recolored() {
    let input = r##"<svg xmlns="http://www.w3.org/2000/svg"><mask id="m" fill="#fff"><circle fill="#fff"/></mask><style>.logo{fill:#68bd45;}</style><path class="logo" mask="url(#m)"/></svg>"##;
    let prepared = prepare_svg(input).unwrap();
    assert_eq!(prepared.sites, vec!["#68bd45".to_string()]);
    let result = recolor_all(input, "rgb(7,7,7)");
    assert!(result.contains(".logo{fill:rgb(7,7,7);}"));
    assert_eq!(result.matches("fill=\"#fff\"").count(), 2);
}

#[test]
fn repairs_xlink_before_parsing() {
    let input = r##"<svg xmlns="http://www.w3.org/2000/svg"><use xlink:href="#shape"/></svg>"##;
    let result = recolor_all(input, "rgb(1,1,1)");
    assert!(result.contains("xmlns:xlink=\"http://www.w3.org/1999/xlink\""));
    let input = r##"<svg xmlns="http://www.w3.org/2000/svg" xmlns2:xlink="http://www.w3.org/1999/xlink"><path fill="#000"/></svg>"##;
    let result = recolor_all(input, "rgb(1,1,1)");
    assert!(result.contains("xmlns:xlink=\"http://www.w3.org/1999/xlink\""));
    assert!(!result.contains("xmlns2:xlink"));
}

#[test]
fn adds_the_svg_namespace_once() {
    let input = r##"<svg fill="currentColor" viewBox="0 0 16 16"><path fill="#3355ff"/></svg>"##;
    let result = recolor_all(input, "rgb(0,172,193)");
    assert!(result.starts_with(r#"<svg xmlns="http://www.w3.org/2000/svg""#));
    let input = r##"<svg xmlns="http://www.w3.org/2000/svg"><path fill="#3355ff"/></svg>"##;
    let result = recolor_all(input, "rgb(0,172,193)");
    assert_eq!(result.matches("xmlns=\"http://www.w3.org/2000/svg\"").count(), 1);
}

#[test]
fn rejects_documents_that_are_not_svg() {
    let error = prepare_svg("<html><body/></html>").err().unwrap();
    assert_eq!(error, "document root must be an <svg> element");
    let error = prepare_svg("<g><use xlink:href=\"#a\"/></g>").err().unwrap();
    assert_eq!(error, "document root must be an <svg> element");
    let error = prepare_svg("<svg xlink:href=\"#a\"").err().unwrap();
    assert_eq!(error, "malformed SVG root element");
    assert!(prepare_svg("<svg><path></svg>").is_err());
    assert!(prepare_svg("").is_err());
}

#[test]
fn empty_recoloring_changes_nothing() {
    let input = r##"<svg xmlns="http://www.w3.org/2000/svg"><style>.a{fill:#111}</style><g stroke="red" style="fill:#222"><path fill="#333"/></g></svg>"##;
    let root = parse_svg_document(input).unwrap();
    let before = serialize(&root).unwrap();
    let root = parse_svg_document(input).unwrap();
    let after = render_svg(root, &Vec::new()).unwrap();
    // Attribute order follows a HashMap, so compare what each text holds.
    let mut a: Vec<char> = before.chars().collect();
    let mut b: Vec<char> = after.chars().collect();
    a.sort();
    b.sort();
    assert_eq!(a, b);
    assert!(after.contains(".a{fill:#111}"));
    assert!(after.contains("stroke=\"red\""));
    assert!(after.contains("style=\"fill:#222\""));
    assert!(after.contains("fill=\"#333\""));
}

#[test]
fn transform_keeps_the_tree_shape() {
    let input = r##"<svg xmlns="http://www.w3.org/2000/svg"><!-- note --><g fill="#000"><path/><path fill="#000"/></g>text</svg>"##;
    let root = parse_svg_document(input).unwrap();
    let map = vec![("#000".to_string(), "rgb(4,5,6)".to_string())];
    let out = transform_element(root, &map);
    assert_eq!(out.name, "svg");
    assert_eq!(out.children.len(), 3);
    assert!(matches!(&out.children[0], SvgNode::Comment(c) if c == " note "));
    match &out.children[1] {
        SvgNode::Element(g) => {
            assert_eq!(g.attributes, vec![("fill".to_string(), "rgb(4,5,6)".to_string())]);
            assert_eq!(g.children.len(), 2);
        }
        _ => panic!("expected the group"),
    }
    assert!(matches!(&out.children[2], SvgNode::Text(t) if t == "text"));
}

#[test]
fn namespace_is_judged_on_the_root_tag_only() {
    let input = r##"<svg><foreignObject><div xmlns="http://www.w3.org/1999/xhtml"/></foreignObject></svg>"##;
    let root = parse_svg_document(input).unwrap();
    let result = serialize(&root).unwrap();
    assert!(result.starts_with(r##"<svg xmlns="http://www.w3.org/2000/svg""##));
    assert_eq!(result.matches("xmlns=\"http://www.w3.org/2000/svg\"").count(), 1);
    assert!(result.contains("xmlns=\"http://www.w3.org/1999/xhtml\""));
}

#[test]
fn nested_masks_are_kept_whole() {
    let input = r##"<svg xmlns="http://www.w3.org/2000/svg"><g><defs><mask id="m" fill="#fff"><g><circle fill="#000"/></g></mask></defs><path fill="#000" mask="url(#m)"/></g></svg>"##;
    let prepared = prepare_svg(input).unwrap();
    assert_eq!(prepared.sites, vec!["#000".to_string()]);
    let result = recolor_all(input, "rgb(9,8,7)");
    assert!(result.contains("fill=\"#fff\""));
    assert_eq!(result.matches("fill=\"#000\"").count(), 1);
    assert_eq!(result.matches("fill=\"rgb(9,8,7)\"").count(), 2);
}

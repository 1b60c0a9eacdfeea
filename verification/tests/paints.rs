use svg_conversion_wasm::{
    classify_paint, style_declarations, stylesheet_declarations, transform_style,
    transform_stylesheet, OutputMode, Paint,
};

fn recoloring(pairs: &[(&str, &str)]) -> Vec<(String, String)> {
    pairs.iter().map(|(a, b)| (a.to_string(), b.to_string())).collect()
}

#[test]
fn classifies_keywords_ignoring_case_and_space() {
    assert!(matches!(classify_paint("none"), Paint::Unpainted));
    assert!(matches!(classify_paint("  NoNe "), Paint::Unpainted));
    assert!(matches!(classify_paint("Transparent"), Paint::Unpainted));
    assert!(matches!(classify_paint("url(#gradient)"), Paint::Unpainted));
    assert!(matches!(classify_paint(" var(--x)"), Paint::Unpainted));
    assert!(matches!(classify_paint("currentColor"), Paint::CurrentColor));
    match classify_paint("GREEN") {
        Paint::Literal(s) => assert_eq!(s, "#00ff00"),
        _ => panic!("green is a literal"),
    }
    match classify_paint("\t#3355ff\n") {
        Paint::Literal(s) => assert_eq!(s, "#3355ff"),
        _ => panic!("a hex color is a literal"),
    }
    // `URL(` is not the url function: only the exact prefix is.
    assert!(matches!(classify_paint("URL(#a)"), Paint::Literal(_)));
}

#[test]
fn reads_output_modes() {
    assert_eq!(OutputMode::from_str("rgb"), Ok(OutputMode::Rgb));
    assert_eq!(OutputMode::from_str("css_vars"), Ok(OutputMode::CssVars));
    assert_eq!(
        OutputMode::from_str("RGB"),
        Err("unsupported output mode: RGB".to_string())
    );
    assert_eq!(
        OutputMode::from_str(""),
        Err("unsupported output mode: ".to_string())
    );
}

#[test]
fn finds_paints_in_inline_styles() {
    assert_eq!(
        style_declarations("stop-color:rgb(50%,50%,50%);opacity:.5"),
        vec!["rgb(50%,50%,50%)".to_string()]
    );
    assert_eq!(
        style_declarations(" fill : #fff ; stroke:none;color:red;x"),
        vec!["#fff".to_string(), "red".to_string()]
    );
    assert!(style_declarations("").is_empty());
    assert!(style_declarations("fill").is_empty());
}

#[test]
fn rewrites_inline_styles_keeping_other_declarations() {
    let map = recoloring(&[("rgb(50%,50%,50%)", "rgb(1,2,3)")]);
    assert_eq!(
        transform_style("stop-color:rgb(50%,50%,50%);opacity:.5", &map),
        "stop-color:rgb(1,2,3);opacity:.5"
    );
    // The name is kept as written, the value is replaced after the colon.
    let map = recoloring(&[("#fff", "rgb(9,9,9)")]);
    assert_eq!(
        transform_style(" fill : #fff ;opacity:1;", &map),
        " fill :rgb(9,9,9);opacity:1;"
    );
}

#[test]
fn never_replaces_unpainted_values() {
    let map = recoloring(&[("none", "rgb(1,1,1)"), ("url(#a)", "rgb(2,2,2)")]);
    assert_eq!(transform_style("fill:none;stroke:url(#a)", &map), "fill:none;stroke:url(#a)");
    assert!(style_declarations("fill:none;stroke:url(#a)").is_empty());
}

#[test]
fn empty_recoloring_keeps_styles() {
    let style = "fill:#000; stroke : red;;opacity:0.5";
    assert_eq!(transform_style(style, &Vec::new()), style);
    let sheet = ".a{fill:#68bd45;} .b { stroke: blue } trailing";
    assert_eq!(transform_stylesheet(sheet, &Vec::new()), sheet);
}

#[test]
fn finds_and_rewrites_stylesheet_paints() {
    assert_eq!(
        stylesheet_declarations(".a{fill:#68bd45;}"),
        vec!["#68bd45".to_string()]
    );
    assert_eq!(
        stylesheet_declarations(".a{fill:#111}.b{opacity:1;stroke:#222}@x"),
        vec!["#111".to_string(), "#222".to_string()]
    );
    let map = recoloring(&[("#68bd45", "rgb(255,0,255)")]);
    assert_eq!(
        transform_stylesheet(".a{fill:#68bd45;}", &map),
        ".a{fill:rgb(255,0,255);}"
    );
    let map = recoloring(&[("#111", "A"), ("#222", "B")]);
    assert_eq!(
        transform_stylesheet(".a{fill:#111}.b{opacity:1;stroke:#222}@x", &map),
        ".a{fill:A}.b{opacity:1;stroke:B}@x"
    );
}

#[test]
fn first_matching_pair_wins() {
    let map = recoloring(&[("#000", "first"), ("#000", "second")]);
    assert_eq!(transform_style("fill:#000", &map), "fill:first");
}

use svg_conversion_wasm::{
    add_svg_namespace, color_map_document, find_svg_files, format_rgb, io_error,
    primary_variable, repair_xlink_namespace, usage,
};

fn path(parts: &[&str]) -> Vec<String> {
    parts.iter().map(|p| p.to_string()).collect()
}

#[test]
fn formats_rgb_and_variables() {
    assert_eq!(format_rgb(255, 0, 255), "rgb(255,0,255)");
    assert_eq!(format_rgb(0, 172, 193), "rgb(0,172,193)");
    assert_eq!(format_rgb(9, 10, 99), "rgb(9,10,99)");
    assert_eq!(primary_variable(0), "var(--primary-l-0)");
    assert_eq!(primary_variable(128), "var(--primary-l-128)");
}

#[test]
fn writes_the_color_map() {
    assert_eq!(color_map_document(&Vec::new()), "html\n");
    let shades = vec![(0, 0, 0), (1, 2, 3)];
    assert_eq!(
        color_map_document(&shades),
        "html\n\t--primary-l-0: rgb(0,0,0)\n\t--primary-l-1: rgb(1,2,3)\n"
    );
    let full: Vec<(u8, u8, u8)> = (0..=255u8).map(|i| (i, i, i)).collect();
    let text = color_map_document(&full);
    assert_eq!(text.lines().count(), 257);
    assert!(text.ends_with("\t--primary-l-255: rgb(255,255,255)\n"));
}

#[test]
fn repairs_the_xlink_namespace() {
    assert_eq!(
        repair_xlink_namespace(r##"<svg><use xlink:href="#a"/></svg>"##).unwrap(),
        r##"<svg xmlns:xlink="http://www.w3.org/1999/xlink"><use xlink:href="#a"/></svg>"##
    );
    assert_eq!(
        repair_xlink_namespace(r#"<svg xmlns2:xlink="u"/>"#).unwrap(),
        r#"<svg xmlns:xlink="u"/>"#
    );
    let plain = r#"<svg><path/></svg>"#;
    assert_eq!(repair_xlink_namespace(plain).unwrap(), plain);
    assert_eq!(
        repair_xlink_namespace("<g xlink:href='#a'/>"),
        Err("document root must be an <svg> element".to_string())
    );
    assert_eq!(
        repair_xlink_namespace("<svg xlink:href"),
        Err("malformed SVG root element".to_string())
    );
}

#[test]
fn adds_the_namespace_idempotently() {
    let once = add_svg_namespace("<svg><path/></svg>");
    assert_eq!(once, r#"<svg xmlns="http://www.w3.org/2000/svg"><path/></svg>"#);
    assert_eq!(add_svg_namespace(&once), once);
    assert_eq!(add_svg_namespace("<g/>"), "<g/>");
    let declared = r#"<svg xmlns="x"/>"#;
    assert_eq!(add_svg_namespace(declared), declared);
    assert_eq!(
        add_svg_namespace(r#"<svg><g xmlns="x"/></svg>"#),
        r#"<svg xmlns="http://www.w3.org/2000/svg"><g xmlns="x"/></svg>"#
    );
}

#[test]
fn finds_svg_files_in_path_order() {
    let listing = vec![
        path(&["b.svg"]),
        path(&["a", "z.SVG"]),
        path(&["a.b", "c.svg"]),
        path(&["notes.txt"]),
        path(&[".svg"]),
        path(&["x.svgz"]),
        path(&["a", "b.svg"]),
    ];
    let found = find_svg_files(listing);
    assert_eq!(
        found,
        vec![
            path(&["a", "b.svg"]),
            path(&["a", "z.SVG"]),
            path(&["a.b", "c.svg"]),
            path(&["b.svg"]),
        ]
    );
    assert!(find_svg_files(Vec::new()).is_empty());
}

#[test]
fn file_order_does_not_depend_on_the_listing_order() {
    let one = find_svg_files(vec![path(&["c.svg"]), path(&["a.svg"]), path(&["b.svg"])]);
    let two = find_svg_files(vec![path(&["b.svg"]), path(&["c.svg"]), path(&["a.svg"])]);
    assert_eq!(one, two);
}

#[test]
fn prints_the_usage_line() {
    assert_eq!(
        usage(),
        "Usage: svg-conversion <input_dir> <output_dir> [primary_color] [tolerance] [rgb|css_vars]"
    );
}

#[test]
fn io_errors_read_as_their_message() {
    let error = std::io::Error::new(std::io::ErrorKind::Other, "disk full");
    assert_eq!(io_error(error), "disk full");
}

use css_minifier::argparse::split_line_params;

#[test]
fn split_two_params() {
    let params = split_line_params("a.css b.css");
    assert_eq!(params, vec!["a.css".to_string(), "b.css".to_string()]);
}

#[test]
fn split_skips_empty_pieces() {
    let params = split_line_params("  /in/a.css   /in/b.css ");
    assert_eq!(params, vec!["/in/a.css".to_string(), "/in/b.css".to_string()]);
}

#[test]
fn split_empty_line() {
    let params = split_line_params("");
    assert!(params.is_empty());
}

#[test]
fn split_only_spaces() {
    let params = split_line_params("   ");
    assert!(params.is_empty());
}

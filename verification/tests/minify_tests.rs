use css_minifier::minify::minify_css;
use css_minifier::minify::validate_filename;

#[test]
fn validate_basics() {
    let input = "/home/test/test.css";
    assert!(validate_filename(input));

    let input = "/test/test.txt";
    assert!(!validate_filename(input));
}

#[test]
fn minify_basics() {
    let input = " \n\n  p {\n    background-color: red;\n    color: blue;\n    flex: 1 0;\n}";
    let output = minify_css(input);

    assert_eq!(output, "p{background-color:red;color:blue;flex:1 0}");
}

#[test]
fn minify_nested() {
    let input = "@media (min-height: 300px) {\n    test {\n        color: red;\n    }\n    }";
    let output = minify_css(input);

    assert_eq!(output, "@media (min-height:300px){test{color:red}}");
}

#[test]
fn minify_comments() {
    let input = ".test {\n    background-color: red;\n    /* some comment */\n}";
    let output = minify_css(input);

    assert_eq!(output, ".test{background-color:red}");
}

#[test]
fn minify_bang() {
    let input = ".hello {\n    background-color: red !important;\n}";
    let output = minify_css(input);

    assert_eq!(output, ".hello{background-color:red!important}")
}

#[test]
fn minify_direct_child() {
    let input = ".hello > h1 {\n    color: green;\n}";
    let output = minify_css(input);

    assert_eq!(output, ".hello>h1{color:green}");
}

#[test]
fn minify_empty() {
    assert_eq!(minify_css(""), "");
}

#[test]
fn minify_length_never_grows() {
    let inputs = [
        "",
        " \n\n  p {\n    background-color: red;\n    color: blue;\n    flex: 1 0;\n}",
        "@media (min-height: 300px) {\n    test {\n        color: red;\n    }\n    }",
        ".test {\n    background-color: red;\n    /* some comment */\n}",
        "a;;}",
        "no braces at all",
    ];
    for input in inputs {
        let output = minify_css(input);
        assert!(output.chars().count() <= input.chars().count());
    }
}

#[test]
fn minify_second_pass_finds_nothing() {
    let inputs = [
        "",
        " \n\n  p {\n    background-color: red;\n    color: blue;\n    flex: 1 0;\n}",
        "@media (min-height: 300px) {\n    test {\n        color: red;\n    }\n    }",
        ".test {\n    background-color: red;\n    /* some comment */\n}",
        ".hello {\n    background-color: red !important;\n}",
        ".hello > h1 {\n    color: green;\n}",
    ];
    for input in inputs {
        let once = minify_css(input);
        let twice = minify_css(&once);
        assert_eq!(twice, once);
    }
}

#[test]
fn minify_semicolon_run_before_brace() {
    // Only the semicolon right before the brace is removed: a second pass
    // would find the one it uncovers.
    assert_eq!(minify_css("a;;}"), "a;}");
}

#[test]
fn minify_comment_then_space() {
    // The space after the comment survives: its raw predecessor is the
    // closing slash, which is not a special character.
    assert_eq!(minify_css("a{/*c*/ b}"), "a{ b}");
}

#[test]
fn minify_unterminated_comment() {
    assert_eq!(minify_css(".x{color:red/*note"), ".x{color:red");
}

#[test]
fn minify_slash_newline_star() {
    // The line break between the slash and the star keeps the pair from
    // opening a comment; the scan drops only the break.
    assert_eq!(minify_css("/\n*"), "/*");
}

#[test]
fn validate_anchoring() {
    assert!(validate_filename("a.css"));
    assert!(!validate_filename("a.css.bak"));
    assert!(!validate_filename("a.cssx"));
    assert!(!validate_filename(""));
    assert!(validate_filename(".css"));
    assert!(!validate_filename("css"));
}

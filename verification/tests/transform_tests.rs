use personal::transform::{
    is_absolute_target, markdown_to_html, replace_relative_paths, transform, ENABLE_FOOTNOTES,
    ENABLE_STRIKETHROUGH, ENABLE_TABLES, ENABLE_TASKLISTS, EXTENSIONS,
};
use pulldown_cmark::Options;
use regex::{Captures, Regex};

fn replaced_by_pattern(content: &str) -> String {
    let link = Regex::new(r"\[([^\]]+)\]\(([^)]+)\)").unwrap();
    let absolute = Regex::new(r"^(/|[A-Za-z][A-Za-z0-9+.\-]*:)").unwrap();
    link.replace_all(content, |caps: &Captures| {
        let label = &caps[1];
        let target = &caps[2];
        if absolute.is_match(target) {
            format!("[{}]({})", label, target)
        } else {
            format!("[{}](/static/misc/{})", label, target)
        }
    })
    .to_string()
}

#[test]
fn relative_link_points_into_static_prefix() {
    assert_eq!(replace_relative_paths("[alt](img.png)"), "[alt](/static/misc/img.png)");
}

#[test]
fn absolute_links_are_unchanged() {
    assert_eq!(replace_relative_paths("[a](https://x/y.png)"), "[a](https://x/y.png)");
    assert_eq!(replace_relative_paths("[a](http://x/y.png)"), "[a](http://x/y.png)");
    assert_eq!(replace_relative_paths("[a](/abs/path.png)"), "[a](/abs/path.png)");
}

#[test]
fn targets_with_any_scheme_are_unchanged() {
    assert_eq!(replace_relative_paths("[mail](mailto:a@b.c)"), "[mail](mailto:a@b.c)");
    assert_eq!(replace_relative_paths("[f](ftp://host/f.txt)"), "[f](ftp://host/f.txt)");
    assert_eq!(replace_relative_paths("[d](data:text/plain,x)"), "[d](data:text/plain,x)");
    assert_eq!(replace_relative_paths("[g](git+ssh://h/r.git)"), "[g](git+ssh://h/r.git)");
    assert_eq!(replace_relative_paths("[u](HTTPS://X/Y)"), "[u](HTTPS://X/Y)");
}

#[test]
fn targets_that_only_look_like_a_scheme_are_relative() {
    assert_eq!(replace_relative_paths("[a](1st:x)"), "[a](/static/misc/1st:x)");
    assert_eq!(replace_relative_paths("[a](:x)"), "[a](/static/misc/:x)");
    assert_eq!(replace_relative_paths("[a](a/b:c)"), "[a](/static/misc/a/b:c)");
    assert_eq!(replace_relative_paths("[a](a_b:c)"), "[a](/static/misc/a_b:c)");
    assert_eq!(replace_relative_paths("[a](é:c)"), "[a](/static/misc/é:c)");
    assert_eq!(replace_relative_paths("[a](img.png)"), "[a](/static/misc/img.png)");
    assert_eq!(replace_relative_paths("[a](./img.png)"), "[a](/static/misc/./img.png)");
    assert_eq!(replace_relative_paths("[a](abc)"), "[a](/static/misc/abc)");
}

#[test]
fn replacing_twice_is_replacing_once() {
    let samples = [
        "[alt](img.png)",
        "see ![pic](a/b.png) and [site](https://e.org), then [doc](d.pdf).",
        "[[a](b) [c]() [](d) [e](f",
        "[m](mailto:a@b.c) [r](/root) [x](y:z/../w) [q](1:2)",
    ];
    for sample in samples {
        let once = replace_relative_paths(sample);
        assert_eq!(replace_relative_paths(&once), once, "{:?}", sample);
    }
}

#[test]
fn text_around_links_is_kept() {
    assert_eq!(
        replace_relative_paths("see ![pic](a/b.png) and [site](https://e.org), then [doc](d.pdf)."),
        "see ![pic](/static/misc/a/b.png) and [site](https://e.org), then [doc](/static/misc/d.pdf)."
    );
}

#[test]
fn text_without_links_is_kept() {
    assert_eq!(replace_relative_paths(""), "");
    assert_eq!(replace_relative_paths("plain text"), "plain text");
    assert_eq!(replace_relative_paths("[label] (target)"), "[label] (target)");
    assert_eq!(replace_relative_paths("[](target)"), "[](target)");
    assert_eq!(replace_relative_paths("[label]()"), "[label]()");
    assert_eq!(replace_relative_paths("[label](target"), "[label](target");
    assert_eq!(replace_relative_paths("[label"), "[label");
}

#[test]
fn a_label_starts_at_the_first_open_bracket() {
    assert_eq!(replace_relative_paths("[[a](b)"), "[[a](/static/misc/b)");
    assert_eq!(replace_relative_paths("[x] [a](b)"), "[x] [a](/static/misc/b)");
    assert_eq!(replace_relative_paths("[a\nb](c\nd)"), "[a\nb](/static/misc/c\nd)");
    assert_eq!(replace_relative_paths("[a](b)(c)"), "[a](/static/misc/b)(c)");
    assert_eq!(replace_relative_paths("[a]([b](c))"), "[a](/static/misc/[b](c))");
}

#[test]
fn labels_and_targets_may_hold_any_characters() {
    assert_eq!(replace_relative_paths("[é→](ü.png)"), "[é→](/static/misc/ü.png)");
    assert_eq!(replace_relative_paths("日本[語](画像.png)語"), "日本[語](/static/misc/画像.png)語");
}

#[test]
fn links_are_replaced_as_the_pattern_replaces_them() {
    let samples = [
        "",
        "[alt](img.png)",
        "[a](https://x/y.png) [b](/abs/path.png) [c](rel/path.png)",
        "[[a](b)",
        "[a][b](c)",
        "[a](b)[c](d)",
        "[a]([b](c))",
        "[](x) [y]() [z](w)",
        "[a](b",
        "a]b(c)[d](e)",
        "[a\n](\nb)",
        "[[[[",
        "]]]](((())))",
        "[a](http:/b) [a](https:/b) [a](HTTP://b) [a](//b)",
        "[m](mailto:a@b.c) [f](ftp://h/p) [d](data:,x) [t](tel:+1-2.3)",
        "[a](1st:x) [b](:x) [c](a/b:c) [d](a_b:c) [e](é:c) [f](x:) [g](a.b+c-d:e)",
        "[a](z) [b](Z:) [c](a0:) [d](0a:) [e](a) [f](a:) [g](-a:b) [h](a😀:b)",
        "[a]](b) [c](d))",
        "([a](b))",
        "[a] (b) [c](d)",
        "![é](ü.png) 日本[語](画像.png)",
        "[a](b)[",
        "[(](])",
        "[a](b)]()[c](d)",
    ];
    for sample in samples {
        assert_eq!(replace_relative_paths(sample), replaced_by_pattern(sample), "{:?}", sample);
    }
}

#[test]
fn target_classification() {
    assert!(is_absolute_target("http://a"));
    assert!(is_absolute_target("https://a"));
    assert!(is_absolute_target("ftp://a"));
    assert!(is_absolute_target("mailto:a@b.c"));
    assert!(is_absolute_target("http:/a"));
    assert!(is_absolute_target("x:"));
    assert!(is_absolute_target("a1+b-c.d:rest"));
    assert!(is_absolute_target("Z9:"));
    assert!(is_absolute_target("/a"));
    assert!(is_absolute_target("/"));
    assert!(!is_absolute_target("a/b"));
    assert!(!is_absolute_target("a/b:c"));
    assert!(!is_absolute_target("./a"));
    assert!(!is_absolute_target("1a:b"));
    assert!(!is_absolute_target("+a:b"));
    assert!(!is_absolute_target(":a"));
    assert!(!is_absolute_target("a b:c"));
    assert!(!is_absolute_target("http"));
    assert!(!is_absolute_target("a"));
    assert!(!is_absolute_target(""));
}

#[test]
fn extension_bits() {
    assert_eq!(ENABLE_TABLES, Options::ENABLE_TABLES.bits());
    assert_eq!(ENABLE_FOOTNOTES, Options::ENABLE_FOOTNOTES.bits());
    assert_eq!(ENABLE_STRIKETHROUGH, Options::ENABLE_STRIKETHROUGH.bits());
    assert_eq!(ENABLE_TASKLISTS, Options::ENABLE_TASKLISTS.bits());
    let all = Options::ENABLE_TABLES
        | Options::ENABLE_FOOTNOTES
        | Options::ENABLE_STRIKETHROUGH
        | Options::ENABLE_TASKLISTS;
    assert_eq!(EXTENSIONS, all.bits());
    assert_eq!(Options::from_bits_truncate(EXTENSIONS), all);
}

#[test]
fn markdown_is_rendered_with_extensions() {
    assert_eq!(markdown_to_html("# Hi"), "<h1>Hi</h1>\n");
    assert_eq!(markdown_to_html("~~gone~~"), "<p><del>gone</del></p>\n");
    assert!(markdown_to_html("| a | b |\n|---|---|\n| 1 | 2 |\n").contains("<table>"));
    assert!(markdown_to_html("- [x] done\n").contains("type=\"checkbox\""));
    assert!(markdown_to_html("note[^1]\n\n[^1]: text\n").contains("footnote-definition"));
}

#[test]
fn extensions_that_are_off_stay_off() {
    assert_eq!(markdown_to_html("\"quoted\" -- text"), "<p>\"quoted\" -- text</p>\n");
    assert_eq!(markdown_to_html("# Title {#id}"), "<h1>Title {#id}</h1>\n");
}

#[test]
fn transform_resolves_then_renders() {
    assert_eq!(
        transform("![alt](img.png)"),
        "<p><img src=\"/static/misc/img.png\" alt=\"alt\" /></p>\n"
    );
    assert_eq!(
        transform("[site](https://x/y.png) and [root](/abs/path.png)"),
        "<p><a href=\"https://x/y.png\">site</a> and <a href=\"/abs/path.png\">root</a></p>\n"
    );
}

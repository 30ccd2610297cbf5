use mdhtml::parser::segment;
use mdhtml::to_html;

#[test]
fn md_to_html() {
    let md = "This **is** a test *line* that should ~~have~~ some **stuff**.";
    let html = to_html(md);
    println!("{}", html);
}

#[test]
fn begins_with() {
    let a = String::from("> This is a blockquote.");
    let b = String::from(">> This is not a blockquote.");
    let pattern = "> ";

    assert!(mdhtml::begins_with(&a, pattern));
    assert!(!mdhtml::begins_with(&b, pattern));
}

#[test]
fn parse_test() {
    let md = "\n# Header\n\n## Subheader\n\nThis is a paragraph of some importance.\n";

    let blocks = segment(md);
    println!("{:?}", blocks);

    assert!(blocks.len() == 3);
}

#[test]
fn plain_paragraph_is_untouched() {
    assert_eq!(to_html("Just a plain line."), "<p>Just a plain line.</p>\n");
}

#[test]
fn header_ordering_longest_marker_first() {
    assert_eq!(to_html("###### Six"), "<h6>Six</h6>\n");
}

#[test]
fn blank_line_segmentation() {
    let blocks = segment("A\n\nB\n\nC\n");
    assert_eq!(blocks.len(), 3);
    assert_eq!(blocks[0].lines, vec!["A"]);
    assert_eq!(blocks[1].lines, vec!["B"]);
    assert_eq!(blocks[2].lines, vec!["C"]);
}

#[test]
fn code_is_verbatim() {
    let md = "```\n*not* ~~formatted~~ [x](y)\nsecond **line**\n```\n";
    assert_eq!(
        to_html(md),
        "<pre><code>*not* ~~formatted~~ [x](y)\nsecond **line**</code></pre>\n"
    );
}

#[test]
fn inline_formatting_composition() {
    let md = "**bold** and *italic* and ~~gone~~ and [x](y)";
    assert_eq!(
        to_html(md),
        "<p><strong>bold</strong> and <em>italic</em> and <s>gone</s> and <a href=\"y\">x</a></p>\n"
    );
}

#[test]
fn end_to_end_title_and_paragraph() {
    let md = "# Title\n\nThis is **bold** text.\n";
    assert_eq!(
        to_html(md),
        "<h1>Title</h1>\n<p>This is <strong>bold</strong> text.</p>\n"
    );
}

#[test]
fn md_to_html_exact_output() {
    let md = "This **is** a test *line* that should ~~have~~ some **stuff**.";
    assert_eq!(
        to_html(md),
        "<p>This <strong>is</strong> a test <em>line</em> that should <s>have</s> some <strong>stuff</strong>.</p>\n"
    );
}

#[test]
fn empty_document_renders_empty() {
    assert_eq!(to_html(""), "");
}

#[test]
fn begins_with_handles_short_text() {
    assert!(!mdhtml::begins_with("ab", "abc"));
    assert!(mdhtml::begins_with("abc", ""));
    assert!(mdhtml::begins_with("abc", "abc"));
}

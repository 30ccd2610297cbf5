use mdhtml::inline::format_inline;
use mdhtml::parser::parse;
use mdhtml::parser::parse_block;
use mdhtml::parser::Block;
use mdhtml::parser::BlockTypes;
use mdhtml::to_html;

#[test]
fn all_header_levels() {
    assert_eq!(to_html("# One"), "<h1>One</h1>\n");
    assert_eq!(to_html("## Two"), "<h2>Two</h2>\n");
    assert_eq!(to_html("### Three"), "<h3>Three</h3>\n");
    assert_eq!(to_html("#### Four"), "<h4>Four</h4>\n");
    assert_eq!(to_html("##### Five"), "<h5>Five</h5>\n");
    assert_eq!(to_html("###### Six"), "<h6>Six</h6>\n");
}

#[test]
fn header_marker_wins_over_shorter_prefix() {
    // The one-hash marker is a prefix of the six-hash one; the longest
    // marker must win whatever follows it.
    assert_eq!(to_html("###### # nested"), "<h6># nested</h6>\n");
}

#[test]
fn multi_line_blockquote_lines_are_appended_raw() {
    // Non-code lines are appended with no per-line separator.
    assert_eq!(to_html("> a\n> b"), "<blockquote>ab</blockquote>\n");
}

#[test]
fn blockquote_strips_marker_and_formats() {
    assert_eq!(
        to_html("> quoted **text**"),
        "<blockquote>quoted <strong>text</strong></blockquote>\n"
    );
}

#[test]
fn ordered_list_keeps_full_line() {
    assert_eq!(
        to_html("1. first\n1. second"),
        "<ol><li>1. first</li><li>1. second</li></ol>\n"
    );
}

#[test]
fn unordered_list_keeps_full_line() {
    assert_eq!(to_html("* a\n* b"), "<ul><li>* a</li><li>* b</li></ul>\n");
}

#[test]
fn horizontal_rules() {
    assert_eq!(to_html("---"), "<hr>\n");
    assert_eq!(to_html("***"), "<hr>\n");
    assert_eq!(to_html("___"), "<hr>\n");
}

#[test]
fn unterminated_fence_ends_at_block_boundary() {
    assert_eq!(
        to_html("```\ncode *here*"),
        "<pre><code>code *here*</code></pre>\n"
    );
}

#[test]
fn parse_block_classifies_header() {
    let b = parse_block("# Head");
    assert_eq!(b.text, "<h1>Head</h1>");
    assert_eq!(b.block_type, BlockTypes::Header(1));
}

#[test]
fn parse_block_empty_is_raw() {
    let b = parse_block("");
    assert_eq!(b.text, "");
    assert_eq!(b.block_type, BlockTypes::Raw);
}

#[test]
fn last_matching_line_wins() {
    let b = parse_block("# Head\nplain");
    assert_eq!(b.block_type, BlockTypes::Paragraph);
    assert_eq!(b.text, "<h1>Head</h1>plain");
}

#[test]
fn parse_matches_to_html() {
    let md = "# Title\n\n> a *quote*\n";
    assert_eq!(parse(md), to_html(md));
    assert_eq!(
        parse(md),
        "<h1>Title</h1>\n<blockquote>a <em>quote</em></blockquote>\n"
    );
}

#[test]
fn block_new_keeps_parts() {
    let b = Block::new(String::from("body"), BlockTypes::Paragraph);
    assert_eq!(b.text, "body");
    assert_eq!(b.block_type, BlockTypes::Paragraph);
}

#[test]
fn format_inline_single_rules() {
    assert_eq!(format_inline("a *b* c"), "a <em>b</em> c");
    assert_eq!(format_inline("a **b** c"), "a <strong>b</strong> c");
    assert_eq!(format_inline("a ~~b~~ c"), "a <s>b</s> c");
    assert_eq!(format_inline("see [label](target)."), "see <a href=\"target\">label</a>.");
}

#[test]
fn format_inline_unpaired_delimiters_left_alone() {
    assert_eq!(format_inline("lone * star"), "lone * star");
    assert_eq!(format_inline("open [bracket only"), "open [bracket only");
    // An unpaired bold delimiter is two italic delimiters around an empty
    // span for the later italic rule: malformed usage, rendered best-effort.
    assert_eq!(format_inline("half **bold"), "half <em></em>bold");
}

//! The block pipeline: segmenter, classifier and renderer.
//!
//! The segmenter splits the document into raw blocks at blank lines. The
//! classifier walks one raw block line by line, keeps one mutable block type
//! that every matching line overwrites, and builds the block's body text.
//! The renderer wraps a classified block's text in its block-level tag.
use vstd::prelude::*;

use crate::inline::find_from;
use crate::inline::find_str;
use crate::inline::fmt_line;
use crate::inline::format_inline;
use crate::inline::lemma_find_from_none;
use crate::inline::lemma_find_from_some;
use crate::inline::lemma_first_char_differs;
use crate::inline::lemma_fmt_line_id;
use crate::inline::starts_with;

verus! {

/// The closed set of block types a raw block can classify to. `Raw` is the
/// fallback for a block none of whose lines matched a marker.
#[derive(Debug, Clone, Copy, PartialEq, Eq, Structural)]
pub enum BlockTypes {
    Paragraph,
    Blockquote,
    Header(u32),
    OrderedList,
    UnorderedList,
    Code,
    HorizontalRule,
    Raw,
}

/// A classified block: its already-formatted body text and its type.
#[derive(Debug)]
pub struct Block {
    pub text: String,
    pub block_type: BlockTypes,
}

impl Block {
    /// Builds a block from its parts.
    pub fn new(text: String, block_type: BlockTypes) -> (b: Block)
        ensures
            b.text == text,
            b.block_type == block_type,
    {
        Block { text, block_type }
    }
}

/// An unclassified contiguous run of non-blank lines, bounded by blank lines
/// or the document's edges.
#[derive(Debug)]
pub struct RawBlock {
    pub lines: Vec<String>,
}

impl View for RawBlock {
    type V = Seq<Seq<char>>;

    open spec fn view(&self) -> Seq<Seq<char>> {
        line_views(self.lines@)
    }
}

/// The character sequences of a sequence of owned lines.
pub open spec fn line_views(v: Seq<String>) -> Seq<Seq<char>> {
    Seq::new(v.len(), |i: int| v[i]@)
}

/// Splits a document into its lines at newline characters. A trailing
/// newline does not open a final empty line.
pub open spec fn split_lines(s: Seq<char>) -> Seq<Seq<char>>
    decreases s.len(),
{
    if s.len() == 0 {
        Seq::empty()
    } else {
        match find_from(s, "\n"@, 0) {
            None => seq![s],
            Some(i) => {
                proof {
                    lemma_find_from_some(s, "\n"@, 0);
                    reveal_strlit("\n");
                }
                seq![s.subrange(0, i)] + split_lines(s.subrange(i + 1, s.len() as int))
            },
        }
    }
}

/// Splits a document into its lines.
pub fn split_lines_exec(s: &str) -> (r: Vec<String>)
    ensures
        line_views(r@) == split_lines(s@),
    decreases s@.len(),
{
    proof {
        reveal_strlit("\n");
    }
    let n = s.unicode_len();
    if n == 0 {
        let r: Vec<String> = Vec::new();
        assert(line_views(r@) =~= split_lines(s@));
        return r;
    }
    match find_str(s, "\n", 0) {
        None => {
            let mut r: Vec<String> = Vec::new();
            r.push(String::from_str(s));
            assert(line_views(r@) =~= split_lines(s@));
            r
        },
        Some(i) => {
            proof {
                lemma_find_from_some(s@, "\n"@, 0);
            }
            let head = String::from_str(s.substring_char(0, i));
            let mut tail = split_lines_exec(s.substring_char(i + 1, n));
            let mut r: Vec<String> = Vec::new();
            r.push(head);
            r.append(&mut tail);
            assert(line_views(r@) =~= split_lines(s@));
            r
        },
    }
}

/// One step of segmentation over the remaining lines, with `buf` holding the
/// non-blank lines of the block being accumulated. A blank line flushes a
/// non-empty buffer; the end of input flushes whatever is left.
pub open spec fn seg(lines: Seq<Seq<char>>, buf: Seq<Seq<char>>) -> Seq<Seq<Seq<char>>>
    decreases lines.len(),
{
    if lines.len() == 0 {
        if buf.len() == 0 {
            Seq::empty()
        } else {
            seq![buf]
        }
    } else if lines[0].len() == 0 {
        if buf.len() == 0 {
            seg(lines.drop_first(), buf)
        } else {
            seq![buf] + seg(lines.drop_first(), Seq::empty())
        }
    } else {
        seg(lines.drop_first(), buf.push(lines[0]))
    }
}

/// The raw blocks of a document: runs of non-blank lines, with blank lines
/// as separators that are never stored.
pub open spec fn segment_spec(s: Seq<char>) -> Seq<Seq<Seq<char>>> {
    seg(split_lines(s), Seq::empty())
}

/// The views of a sequence of raw blocks.
pub open spec fn block_views(v: Seq<RawBlock>) -> Seq<Seq<Seq<char>>> {
    Seq::new(v.len(), |i: int| v[i]@)
}

/// Splits a document into its raw blocks.
pub fn segment(markdown: &str) -> (blocks: Vec<RawBlock>)
    ensures
        block_views(blocks@) == segment_spec(markdown@),
{
    let lines = split_lines_exec(markdown);
    let n = lines.len();
    let mut out: Vec<RawBlock> = Vec::new();
    let mut buf: Vec<String> = Vec::new();
    let mut idx: usize = 0;
    proof {
        assert(line_views(buf@) =~= Seq::<Seq<char>>::empty());
        assert(line_views(lines@).skip(0) =~= line_views(lines@));
        assert(block_views(out@) + seg(line_views(lines@), line_views(buf@)) =~= seg(
            line_views(lines@),
            Seq::empty(),
        ));
    }
    while idx < n
        invariant
            n == lines.len(),
            idx <= n,
            segment_spec(markdown@) == block_views(out@) + seg(
                line_views(lines@).skip(idx as int),
                line_views(buf@),
            ),
        decreases n - idx,
    {
        let ghost rest = line_views(lines@).skip(idx as int);
        proof {
            assert(rest[0] == lines@[idx as int]@);
            assert(rest.drop_first() =~= line_views(lines@).skip(idx as int + 1));
        }
        let line_len = lines[idx].as_str().unicode_len();
        if line_len == 0 {
            if buf.len() != 0 {
                let flushed = RawBlock { lines: buf };
                buf = Vec::new();
                out.push(flushed);
                proof {
                    assert(seg(rest, flushed@) == seq![flushed@] + seg(
                        rest.drop_first(),
                        Seq::empty(),
                    ));
                    assert(line_views(buf@) =~= Seq::<Seq<char>>::empty());
                    assert(block_views(out@) =~= block_views(out@.drop_last()) + seq![flushed@]);
                    assert(block_views(out@.drop_last()) + (seq![flushed@] + seg(
                        rest.drop_first(),
                        Seq::empty(),
                    )) =~= block_views(out@) + seg(rest.drop_first(), Seq::empty()));
                }
            }
        } else {
            let line = lines[idx].clone();
            proof {
                assert(line_views(buf@.push(line)) =~= line_views(buf@).push(line@));
            }
            buf.push(line);
        }
        idx += 1;
    }
    proof {
        assert(line_views(lines@).skip(n as int) =~= Seq::<Seq<char>>::empty());
    }
    if buf.len() != 0 {
        let flushed = RawBlock { lines: buf };
        out.push(flushed);
        proof {
            assert(block_views(out@) =~= block_views(out@.drop_last()) + seq![flushed@]);
            assert(block_views(out@.drop_last()) + seq![flushed@] =~= block_views(out@));
        }
        return out;
    }
    assert(block_views(out@) + Seq::<Seq<Seq<char>>>::empty() =~= block_views(out@));
    out
}

/// One step of the classifier on one line. Outside code, the markers are
/// tried top to bottom, header markers from the longest down to the
/// shortest, and the matching line overwrites the block type. Inside code,
/// every line is kept verbatim until a closing fence.
pub open spec fn classify_step(
    text: Seq<char>,
    bt: BlockTypes,
    in_code: bool,
    code_ne: bool,
    line: Seq<char>,
) -> (Seq<char>, BlockTypes, bool, bool) {
    if in_code {
        if starts_with(line, "```"@) {
            (text, bt, false, code_ne)
        } else if code_ne {
            (text + "\n"@ + line, bt, true, true)
        } else {
            (text + line, bt, true, true)
        }
    } else if starts_with(line, "```"@) {
        (text, BlockTypes::Code, true, false)
    } else if starts_with(line, "###### "@) {
        (text + "<h6>"@ + fmt_line(line.skip(7)) + "</h6>"@, BlockTypes::Header(6), false, code_ne)
    } else if starts_with(line, "##### "@) {
        (text + "<h5>"@ + fmt_line(line.skip(6)) + "</h5>"@, BlockTypes::Header(5), false, code_ne)
    } else if starts_with(line, "#### "@) {
        (text + "<h4>"@ + fmt_line(line.skip(5)) + "</h4>"@, BlockTypes::Header(4), false, code_ne)
    } else if starts_with(line, "### "@) {
        (text + "<h3>"@ + fmt_line(line.skip(4)) + "</h3>"@, BlockTypes::Header(3), false, code_ne)
    } else if starts_with(line, "## "@) {
        (text + "<h2>"@ + fmt_line(line.skip(3)) + "</h2>"@, BlockTypes::Header(2), false, code_ne)
    } else if starts_with(line, "# "@) {
        (text + "<h1>"@ + fmt_line(line.skip(2)) + "</h1>"@, BlockTypes::Header(1), false, code_ne)
    } else if starts_with(line, "> "@) {
        (text + fmt_line(line.skip(2)), BlockTypes::Blockquote, false, code_ne)
    } else if starts_with(line, "1. "@) {
        (text + "<li>"@ + fmt_line(line) + "</li>"@, BlockTypes::OrderedList, false, code_ne)
    } else if starts_with(line, "* "@) {
        (text + "<li>"@ + fmt_line(line) + "</li>"@, BlockTypes::UnorderedList, false, code_ne)
    } else if starts_with(line, "---"@) || starts_with(line, "***"@) || starts_with(line, "___"@) {
        (text + "<hr>"@, BlockTypes::HorizontalRule, false, code_ne)
    } else {
        (text + fmt_line(line), BlockTypes::Paragraph, false, code_ne)
    }
}

/// The classifier run over a sequence of lines from a given state.
pub open spec fn classify_lines(
    lines: Seq<Seq<char>>,
    st: (Seq<char>, BlockTypes, bool, bool),
) -> (Seq<char>, BlockTypes, bool, bool)
    decreases lines.len(),
{
    if lines.len() == 0 {
        st
    } else {
        classify_lines(lines.drop_first(), classify_step(st.0, st.1, st.2, st.3, lines[0]))
    }
}

/// The classifier's starting state: empty text, the `Raw` fallback type,
/// not inside code.
pub open spec fn init_state() -> (Seq<char>, BlockTypes, bool, bool) {
    (Seq::<char>::empty(), BlockTypes::Raw, false, false)
}

/// The classified body text and block type of one raw block.
pub open spec fn classify_spec(lines: Seq<Seq<char>>) -> (Seq<char>, BlockTypes) {
    let st = classify_lines(lines, init_state());
    (st.0, st.1)
}

/// Strips `mlen` marker characters from the front of `line`, formats the
/// rest inline, and appends it to `text` between `ot` and `ct`.
fn wrap_marked(text: String, line: &str, mlen: usize, ot: &str, ct: &str) -> (r: String)
    requires
        mlen <= line@.len(),
    ensures
        r@ == text@ + ot@ + fmt_line(line@.skip(mlen as int)) + ct@,
{
    let n = line.unicode_len();
    let rest = line.substring_char(mlen, n);
    assert(rest@ =~= line@.skip(mlen as int));
    let formatted = format_inline(rest);
    let mut r = text;
    r.append(ot);
    r.append(formatted.as_str());
    r.append(ct);
    r
}

/// One executable step of the classifier on one line.
fn classify_step_exec(text: String, bt: BlockTypes, in_code: bool, code_ne: bool, line: &str) -> (r:
    (String, BlockTypes, bool, bool))
    ensures
        (r.0@, r.1, r.2, r.3) == classify_step(text@, bt, in_code, code_ne, line@),
{
    proof {
        reveal_strlit("```");
        reveal_strlit("###### ");
        reveal_strlit("##### ");
        reveal_strlit("#### ");
        reveal_strlit("### ");
        reveal_strlit("## ");
        reveal_strlit("# ");
        reveal_strlit("> ");
        reveal_strlit("");
    }
    if in_code {
        if crate::begins_with(line, "```") {
            return (text, bt, false, code_ne);
        }
        let mut r = text;
        if code_ne {
            r.append("\n");
        }
        r.append(line);
        return (r, bt, true, true);
    }
    if crate::begins_with(line, "```") {
        return (text, BlockTypes::Code, true, false);
    }
    if crate::begins_with(line, "###### ") {
        return (wrap_marked(text, line, 7, "<h6>", "</h6>"), BlockTypes::Header(6), false, code_ne);
    }
    if crate::begins_with(line, "##### ") {
        return (wrap_marked(text, line, 6, "<h5>", "</h5>"), BlockTypes::Header(5), false, code_ne);
    }
    if crate::begins_with(line, "#### ") {
        return (wrap_marked(text, line, 5, "<h4>", "</h4>"), BlockTypes::Header(4), false, code_ne);
    }
    if crate::begins_with(line, "### ") {
        return (wrap_marked(text, line, 4, "<h3>", "</h3>"), BlockTypes::Header(3), false, code_ne);
    }
    if crate::begins_with(line, "## ") {
        return (wrap_marked(text, line, 3, "<h2>", "</h2>"), BlockTypes::Header(2), false, code_ne);
    }
    if crate::begins_with(line, "# ") {
        return (wrap_marked(text, line, 2, "<h1>", "</h1>"), BlockTypes::Header(1), false, code_ne);
    }
    if crate::begins_with(line, "> ") {
        let r = wrap_marked(text, line, 2, "", "");
        assert(r@ =~= text@ + fmt_line(line@.skip(2)));
        return (r, BlockTypes::Blockquote, false, code_ne);
    }
    if crate::begins_with(line, "1. ") {
        let r = wrap_marked(text, line, 0, "<li>", "</li>");
        assert(line@.skip(0) =~= line@);
        return (r, BlockTypes::OrderedList, false, code_ne);
    }
    if crate::begins_with(line, "* ") {
        let r = wrap_marked(text, line, 0, "<li>", "</li>");
        assert(line@.skip(0) =~= line@);
        return (r, BlockTypes::UnorderedList, false, code_ne);
    }
    if crate::begins_with(line, "---") || crate::begins_with(line, "***") || crate::begins_with(
        line,
        "___",
    ) {
        let mut r = text;
        r.append("<hr>");
        return (r, BlockTypes::HorizontalRule, false, code_ne);
    }
    let r = wrap_marked(text, line, 0, "", "");
    assert(line@.skip(0) =~= line@);
    assert(r@ =~= text@ + fmt_line(line@));
    (r, BlockTypes::Paragraph, false, code_ne)
}

/// Classifies the lines of one raw block: walks them with one mutable block
/// type that each matching line overwrites, and accumulates the body text.
pub fn classify_lines_exec(lines: &Vec<String>) -> (r: (String, BlockTypes))
    ensures
        r.0@ == classify_spec(line_views(lines@)).0,
        r.1 == classify_spec(line_views(lines@)).1,
{
    let n = lines.len();
    let mut text = String::new();
    let mut bt = BlockTypes::Raw;
    let mut in_code = false;
    let mut code_ne = false;
    let mut idx: usize = 0;
    proof {
        assert(line_views(lines@).skip(0) =~= line_views(lines@));
    }
    while idx < n
        invariant
            n == lines.len(),
            idx <= n,
            classify_lines(line_views(lines@), init_state()) == classify_lines(
                line_views(lines@).skip(idx as int),
                (text@, bt, in_code, code_ne),
            ),
        decreases n - idx,
    {
        let ghost rest = line_views(lines@).skip(idx as int);
        proof {
            assert(rest[0] == lines@[idx as int]@);
            assert(rest.drop_first() =~= line_views(lines@).skip(idx as int + 1));
        }
        let step = classify_step_exec(text, bt, in_code, code_ne, lines[idx].as_str());
        text = step.0;
        bt = step.1;
        in_code = step.2;
        code_ne = step.3;
        idx += 1;
    }
    proof {
        assert(line_views(lines@).skip(n as int) =~= Seq::<Seq<char>>::empty());
    }
    (text, bt)
}

/// Classifies one raw block, given as its text with embedded line breaks,
/// into a finished block.
pub fn parse_block(text: &str) -> (b: Block)
    ensures
        b.text@ == classify_spec(split_lines(text@)).0,
        b.block_type == classify_spec(split_lines(text@)).1,
{
    let lines = split_lines_exec(text);
    let st = classify_lines_exec(&lines);
    Block::new(st.0, st.1)
}

/// The HTML fragment of one classified block: its body text wrapped in the
/// block-level tag of its type. Headers, horizontal rules and raw blocks
/// carry their tags in the text already, or none at all.
pub open spec fn render_spec(text: Seq<char>, bt: BlockTypes) -> Seq<char> {
    match bt {
        BlockTypes::Paragraph => "<p>"@ + text + "</p>\n"@,
        BlockTypes::Blockquote => "<blockquote>"@ + text + "</blockquote>\n"@,
        BlockTypes::OrderedList => "<ol>"@ + text + "</ol>\n"@,
        BlockTypes::UnorderedList => "<ul>"@ + text + "</ul>\n"@,
        BlockTypes::Code => "<pre><code>"@ + text + "</code></pre>\n"@,
        _ => text + "\n"@,
    }
}

/// Renders one classified block as an HTML fragment.
pub fn render_block(b: &Block) -> (r: String)
    ensures
        r@ == render_spec(b.text@, b.block_type),
{
    let mut r = String::new();
    match b.block_type {
        BlockTypes::Paragraph => {
            r.append("<p>");
            r.append(b.text.as_str());
            r.append("</p>\n");
        },
        BlockTypes::Blockquote => {
            r.append("<blockquote>");
            r.append(b.text.as_str());
            r.append("</blockquote>\n");
        },
        BlockTypes::OrderedList => {
            r.append("<ol>");
            r.append(b.text.as_str());
            r.append("</ol>\n");
        },
        BlockTypes::UnorderedList => {
            r.append("<ul>");
            r.append(b.text.as_str());
            r.append("</ul>\n");
        },
        BlockTypes::Code => {
            r.append("<pre><code>");
            r.append(b.text.as_str());
            r.append("</code></pre>\n");
        },
        _ => {
            r.append(b.text.as_str());
            r.append("\n");
        },
    }
    r
}

/// The HTML of a document's raw blocks, in document order, each block's
/// fragment ending in its own newline and nothing added between them.
pub open spec fn html_of(blocks: Seq<Seq<Seq<char>>>) -> Seq<char>
    decreases blocks.len(),
{
    if blocks.len() == 0 {
        Seq::empty()
    } else {
        render_spec(classify_spec(blocks[0]).0, classify_spec(blocks[0]).1) + html_of(
            blocks.drop_first(),
        )
    }
}

/// The HTML fragment of a whole markdown document.
pub open spec fn md_html(s: Seq<char>) -> Seq<char> {
    html_of(segment_spec(s))
}

/// Converts a markdown document into an HTML fragment: segments it into raw
/// blocks, classifies each, renders each, and concatenates the fragments in
/// document order.
pub fn parse(markdown: &str) -> (html: String)
    ensures
        html@ == md_html(markdown@),
{
    let blocks = segment(markdown);
    let n = blocks.len();
    let mut html = String::new();
    let mut idx: usize = 0;
    proof {
        assert(block_views(blocks@).skip(0) =~= block_views(blocks@));
    }
    while idx < n
        invariant
            n == blocks.len(),
            idx <= n,
            md_html(markdown@) == html@ + html_of(block_views(blocks@).skip(idx as int)),
        decreases n - idx,
    {
        let ghost rest = block_views(blocks@).skip(idx as int);
        proof {
            assert(rest[0] == blocks@[idx as int]@);
            assert(rest.drop_first() =~= block_views(blocks@).skip(idx as int + 1));
        }
        let st = classify_lines_exec(&blocks[idx].lines);
        let b = Block::new(st.0, st.1);
        let piece = render_block(&b);
        html.append(piece.as_str());
        idx += 1;
    }
    proof {
        assert(block_views(blocks@).skip(n as int) =~= Seq::<Seq<Seq<char>>>::empty());
    }
    html
}

/// The classifier run distributes over concatenation of line sequences.
pub proof fn lemma_classify_lines_concat(
    a: Seq<Seq<char>>,
    b: Seq<Seq<char>>,
    st: (Seq<char>, BlockTypes, bool, bool),
)
    ensures
        classify_lines(a + b, st) == classify_lines(b, classify_lines(a, st)),
    decreases a.len(),
{
    if a.len() == 0 {
        assert(a + b =~= b);
    } else {
        assert((a + b).drop_first() =~= a.drop_first() + b);
        assert((a + b)[0] == a[0]);
        lemma_classify_lines_concat(
            a.drop_first(),
            b,
            classify_step(st.0, st.1, st.2, st.3, a[0]),
        );
    }
}

/// The newline-prefixed join of code lines: a newline before each line.
pub open spec fn join_pre(ls: Seq<Seq<char>>) -> Seq<char>
    decreases ls.len(),
{
    if ls.len() == 0 {
        Seq::empty()
    } else {
        "\n"@ + ls[0] + join_pre(ls.drop_first())
    }
}

/// The lines of a code body joined back together with single newlines
/// between them.
pub open spec fn join_lines(ls: Seq<Seq<char>>) -> Seq<char> {
    if ls.len() == 0 {
        Seq::empty()
    } else {
        ls[0] + join_pre(ls.drop_first())
    }
}

/// Inside a code block that already holds some text, each further non-fence
/// line is appended verbatim after a newline.
proof fn lemma_classify_code_run(lines: Seq<Seq<char>>, text: Seq<char>, bt: BlockTypes)
    requires
        forall|i: int| 0 <= i < lines.len() ==> !starts_with(lines[i], "```"@),
    ensures
        classify_lines(lines, (text, bt, true, true)) == ((text + join_pre(lines), bt, true, true)),
    decreases lines.len(),
{
    if lines.len() == 0 {
        assert(text + join_pre(lines) =~= text);
    } else {
        lemma_classify_code_run(lines.drop_first(), text + "\n"@ + lines[0], bt);
        assert(text + "\n"@ + lines[0] + join_pre(lines.drop_first()) =~= text + join_pre(lines));
    }
}

/// From a freshly opened code block, non-fence lines accumulate verbatim,
/// joined by single newlines.
proof fn lemma_classify_code_start(lines: Seq<Seq<char>>, text: Seq<char>, bt: BlockTypes)
    requires
        forall|i: int| 0 <= i < lines.len() ==> !starts_with(lines[i], "```"@),
    ensures
        lines.len() == 0 ==> classify_lines(lines, (text, bt, true, false)) == ((
            text,
            bt,
            true,
            false,
        )),
        lines.len() > 0 ==> classify_lines(lines, (text, bt, true, false)) == ((
            text + join_lines(lines),
            bt,
            true,
            true,
        )),
{
    if lines.len() > 0 {
        lemma_classify_code_run(lines.drop_first(), text + lines[0], bt);
        assert(text + lines[0] + join_pre(lines.drop_first()) =~= text + join_lines(lines));
    }
}

/// Law: code is kept verbatim. A raw block whose first line opens a fence
/// and whose following lines are the code body (none of them a fence line)
/// classifies to exactly that body, joined by single newlines with no inline
/// substitution applied — whatever delimiter characters it contains — and
/// the renderer wraps it in one code tag. The closing fence line, when
/// present, contributes nothing.
#[verifier::rlimit(50)]
pub proof fn lemma_code_verbatim(opener: Seq<char>, body: Seq<Seq<char>>, closer: Seq<char>)
    requires
        starts_with(opener, "```"@),
        starts_with(closer, "```"@),
        forall|i: int| 0 <= i < body.len() ==> !starts_with(body[i], "```"@),
    ensures
        classify_spec(seq![opener] + body + seq![closer]).0 == join_lines(body),
        classify_spec(seq![opener] + body + seq![closer]).1 == BlockTypes::Code,
        render_spec(
            classify_spec(seq![opener] + body + seq![closer]).0,
            classify_spec(seq![opener] + body + seq![closer]).1,
        ) == "<pre><code>"@ + join_lines(body) + "</code></pre>\n"@,
{
    lemma_classify_lines_concat(seq![opener] + body, seq![closer], init_state());
    lemma_classify_lines_concat(seq![opener], body, init_state());
    let st1 = classify_step(Seq::<char>::empty(), BlockTypes::Raw, false, false, opener);
    assert(st1.0 == Seq::<char>::empty() && st1.1 == BlockTypes::Code && st1.2 == true && st1.3
        == false);
    assert(seq![opener].drop_first() =~= Seq::<Seq<char>>::empty());
    assert(seq![opener][0] == opener);
    let opened = classify_lines(seq![opener], init_state());
    assert(opened == classify_lines(seq![opener].drop_first(), st1));
    assert(classify_lines(Seq::<Seq<char>>::empty(), st1) == st1);
    lemma_classify_code_start(body, Seq::<char>::empty(), BlockTypes::Code);
    let filled = classify_lines(body, opened);
    assert(filled.0 =~= join_lines(body));
    assert(filled.1 == BlockTypes::Code && filled.2 == true);
    let st2 = classify_step(filled.0, filled.1, filled.2, filled.3, closer);
    assert(st2.0 == filled.0 && st2.1 == BlockTypes::Code);
    assert(seq![closer].drop_first() =~= Seq::<Seq<char>>::empty());
    assert(seq![closer][0] == closer);
    let closed = classify_lines(seq![closer], filled);
    assert(closed == classify_lines(seq![closer].drop_first(), st2));
    assert(classify_lines(Seq::<Seq<char>>::empty(), st2) == st2);
    assert(classify_lines(seq![opener] + body + seq![closer], init_state()) == closed);
}

/// Law: an unterminated fence degrades gracefully. A raw block whose first
/// line opens a fence and whose remaining lines never close it still
/// classifies to the verbatim body: the block simply ends at the segmenter's
/// boundary.
pub proof fn lemma_code_verbatim_unterminated(opener: Seq<char>, body: Seq<Seq<char>>)
    requires
        starts_with(opener, "```"@),
        forall|i: int| 0 <= i < body.len() ==> !starts_with(body[i], "```"@),
    ensures
        classify_spec(seq![opener] + body).0 == join_lines(body),
        classify_spec(seq![opener] + body).1 == BlockTypes::Code,
{
    lemma_classify_lines_concat(seq![opener], body, init_state());
    let st1 = classify_step(Seq::<char>::empty(), BlockTypes::Raw, false, false, opener);
    assert(st1.0 == Seq::<char>::empty() && st1.1 == BlockTypes::Code && st1.2 == true && st1.3
        == false);
    assert(seq![opener].drop_first() =~= Seq::<Seq<char>>::empty());
    assert(seq![opener][0] == opener);
    let opened = classify_lines(seq![opener], init_state());
    assert(opened == classify_lines(seq![opener].drop_first(), st1));
    assert(classify_lines(Seq::<Seq<char>>::empty(), st1) == st1);
    lemma_classify_code_start(body, Seq::<char>::empty(), BlockTypes::Code);
    assert(classify_lines(body, opened).0 =~= join_lines(body));
}

/// Law: header markers are matched from the longest down. Any single-line
/// block whose line starts with the six-hash marker classifies to a level-six
/// header of the rest of the line — never to a level-one header of the full
/// line, although the one-hash marker is a prefix of the six-hash one.
pub proof fn lemma_header_six(line: Seq<char>)
    requires
        starts_with(line, "###### "@),
    ensures
        classify_spec(seq![line]).1 == BlockTypes::Header(6),
        classify_spec(seq![line]).0 == "<h6>"@ + fmt_line(line.skip(7)) + "</h6>"@,
{
    reveal_strlit("###### ");
    reveal_strlit("```");
    assert(line[0] == '#') by {
        let z: int = 0;
        assert(line[z + 0] == "###### "@[0]);
    }
    lemma_first_char_differs(line, "```"@);
    let st = classify_step(Seq::<char>::empty(), BlockTypes::Raw, false, false, line);
    assert(st.1 == BlockTypes::Header(6));
    assert(st.0 =~= "<h6>"@ + fmt_line(line.skip(7)) + "</h6>"@);
    assert(seq![line].drop_first() =~= Seq::<Seq<char>>::empty());
    assert(seq![line][0] == line);
    assert(classify_lines(seq![line], init_state()) == classify_lines(seq![line].drop_first(), st));
    assert(classify_lines(Seq::<Seq<char>>::empty(), st) == st);
}

/// A line of plain text: non-blank, free of newline and inline delimiter
/// characters, and matching no block marker.
pub open spec fn plain_line(l: Seq<char>) -> bool {
    &&& l.len() > 0
    &&& forall|i: int|
        0 <= i < l.len() ==> (l[i] != '\n' && l[i] != '*' && l[i] != '~' && l[i] != '[')
    &&& l[0] != '#'
    &&& l[0] != '>'
    &&& l[0] != '`'
    &&& l[0] != '-'
    &&& l[0] != '_'
    &&& !starts_with(l, "1. "@)
}

/// Law: plain text is untouched. A document that is one plain line — no
/// markdown syntax at all — converts to exactly that line wrapped in a
/// paragraph tag, with a trailing newline.
pub proof fn lemma_plain_paragraph(l: Seq<char>)
    requires
        plain_line(l),
    ensures
        md_html(l) == "<p>"@ + l + "</p>\n"@,
{
    reveal_strlit("\n");
    reveal_strlit("```");
    reveal_strlit("###### ");
    reveal_strlit("##### ");
    reveal_strlit("#### ");
    reveal_strlit("### ");
    reveal_strlit("## ");
    reveal_strlit("# ");
    reveal_strlit("> ");
    reveal_strlit("* ");
    reveal_strlit("---");
    reveal_strlit("***");
    reveal_strlit("___");
    lemma_find_from_none(l, "\n"@, 0);
    assert(split_lines(l) == seq![l]);
    assert(seq![l].drop_first() =~= Seq::<Seq<char>>::empty());
    assert(Seq::<Seq<char>>::empty().push(l) =~= seq![l]);
    assert(seq![l][0] == l);
    assert(seg(seq![l], Seq::<Seq<char>>::empty()) == seg(
        seq![l].drop_first(),
        Seq::<Seq<char>>::empty().push(l),
    ));
    assert(seg(Seq::<Seq<char>>::empty(), seq![l]) == seq![seq![l]]);
    assert(seg(seq![l], Seq::<Seq<char>>::empty()) == seq![seq![l]]);
    lemma_first_char_differs(l, "```"@);
    lemma_first_char_differs(l, "###### "@);
    lemma_first_char_differs(l, "##### "@);
    lemma_first_char_differs(l, "#### "@);
    lemma_first_char_differs(l, "### "@);
    lemma_first_char_differs(l, "## "@);
    lemma_first_char_differs(l, "# "@);
    lemma_first_char_differs(l, "> "@);
    lemma_first_char_differs(l, "* "@);
    lemma_first_char_differs(l, "---"@);
    lemma_first_char_differs(l, "***"@);
    lemma_first_char_differs(l, "___"@);
    lemma_fmt_line_id(l);
    let st = classify_step(Seq::<char>::empty(), BlockTypes::Raw, false, false, l);
    assert(st.0 =~= l);
    assert(st.1 == BlockTypes::Paragraph);
    assert(classify_lines(seq![l], init_state()) == classify_lines(seq![l].drop_first(), st));
    assert(classify_lines(Seq::<Seq<char>>::empty(), st) == st);
    assert(classify_spec(seq![l]).0 == l && classify_spec(seq![l]).1 == BlockTypes::Paragraph);
    assert(segment_spec(l) == seq![seq![l]]);
    assert(seq![seq![l]].drop_first() =~= Seq::<Seq<Seq<char>>>::empty());
    assert(seq![seq![l]][0] == seq![l]);
    assert(html_of(seq![seq![l]]) == render_spec(l, BlockTypes::Paragraph) + html_of(
        seq![seq![l]].drop_first(),
    ));
    assert(html_of(Seq::<Seq<Seq<char>>>::empty()) == Seq::<char>::empty());
    assert(md_html(l) =~= "<p>"@ + l + "</p>\n"@);
}

} // verus!

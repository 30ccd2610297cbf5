//! The inline formatter: rewrites bold, italic, strikethrough and link spans
//! inside one line of text.
//!
//! Each rule replaces every non-overlapping occurrence of a delimited span,
//! left to right, matching the shortest span between delimiters. The four
//! rules run in a fixed order — bold, italic, strikethrough, link — each on
//! the previous rule's output; that order is part of the contract.
use vstd::prelude::*;

verus! {

/// True when `d` occurs in `s` at position `i`.
pub open spec fn occurs_at(s: Seq<char>, d: Seq<char>, i: int) -> bool {
    &&& 0 <= i
    &&& i + d.len() <= s.len()
    &&& forall|k: int| 0 <= k < d.len() ==> s[i + k] == d[k]
}

/// True when `p` is a prefix of `s`.
pub open spec fn starts_with(s: Seq<char>, p: Seq<char>) -> bool {
    occurs_at(s, p, 0)
}

/// Position of the first occurrence of `d` in `s` at or after `from`;
/// `None` when there is none.
pub open spec fn find_from(s: Seq<char>, d: Seq<char>, from: int) -> Option<int>
    decreases s.len() - from,
{
    if d.len() == 0 || from < 0 || from + d.len() > s.len() {
        None
    } else if occurs_at(s, d, from) {
        Some(from)
    } else {
        find_from(s, d, from + 1)
    }
}

/// A found position lies at or after `from` and carries a real occurrence
/// of a non-empty delimiter.
pub proof fn lemma_find_from_some(s: Seq<char>, d: Seq<char>, from: int)
    ensures
        match find_from(s, d, from) {
            Some(i) => from <= i && occurs_at(s, d, i) && d.len() >= 1,
            None => true,
        },
    decreases s.len() - from,
{
    if d.len() == 0 || from < 0 || from + d.len() > s.len() {
    } else if occurs_at(s, d, from) {
    } else {
        lemma_find_from_some(s, d, from + 1);
    }
}

/// If the first character of `d` never occurs in `s` at or after `from`,
/// then `d` is not found there.
pub proof fn lemma_find_from_none(s: Seq<char>, d: Seq<char>, from: int)
    requires
        d.len() >= 1,
        forall|i: int| from <= i < s.len() ==> s[i] != d[0],
    ensures
        find_from(s, d, from) == None::<int>,
    decreases s.len() - from,
{
    if d.len() == 0 || from < 0 || from + d.len() > s.len() {
    } else {
        assert(!occurs_at(s, d, from)) by {
            assert(s[from + 0] != d[0]);
        }
        lemma_find_from_none(s, d, from + 1);
    }
}

/// A line whose first character differs from a marker's first character does
/// not start with that marker.
pub proof fn lemma_first_char_differs(s: Seq<char>, p: Seq<char>)
    requires
        p.len() >= 1,
        s.len() >= 1,
        s[0] != p[0],
    ensures
        !starts_with(s, p),
{
    if starts_with(s, p) {
        let z: int = 0;
        assert(s[z + 0] == p[0]);
    }
}

/// Rewrites every span of `s` between two occurrences of the delimiter `d`
/// into the same span wrapped in `ot` and `ct`, shortest span first, left to
/// right, non-overlapping. Text after an unpaired delimiter is unchanged.
pub open spec fn subst_pair(s: Seq<char>, d: Seq<char>, ot: Seq<char>, ct: Seq<char>) -> Seq<char>
    decreases s.len(),
{
    match find_from(s, d, 0) {
        None => s,
        Some(i) => match find_from(s, d, i + d.len()) {
            None => s,
            Some(j) => {
                proof {
                    lemma_find_from_some(s, d, 0);
                    lemma_find_from_some(s, d, i + d.len());
                }
                s.subrange(0, i) + ot + s.subrange(i + d.len(), j) + ct + subst_pair(
                    s.subrange(j + d.len(), s.len() as int),
                    d,
                    ot,
                    ct,
                )
            },
        },
    }
}

/// Rewrites every link span `[label](target)` of `s` into an anchor tag with
/// `target` as the href attribute and `label` as the visible text, shortest
/// spans, left to right, non-overlapping. Text after an incomplete link
/// pattern is unchanged.
pub open spec fn subst_link(s: Seq<char>) -> Seq<char>
    decreases s.len(),
{
    match find_from(s, "["@, 0) {
        None => s,
        Some(i) => match find_from(s, "]("@, i + 1) {
            None => s,
            Some(j) => match find_from(s, ")"@, j + 2) {
                None => s,
                Some(k) => {
                    proof {
                        lemma_find_from_some(s, "["@, 0);
                        lemma_find_from_some(s, "]("@, i + 1);
                        lemma_find_from_some(s, ")"@, j + 2);
                        reveal_strlit(")");
                    }
                    s.subrange(0, i) + "<a href=\""@ + s.subrange(j + 2, k) + "\">"@
                        + s.subrange(i + 1, j) + "</a>"@ + subst_link(
                        s.subrange(k + 1, s.len() as int),
                    )
                },
            },
        },
    }
}

/// The whole inline formatter: bold, then italic, then strikethrough, then
/// links, each rule running on the previous rule's output.
pub open spec fn fmt_line(s: Seq<char>) -> Seq<char> {
    subst_link(
        subst_pair(
            subst_pair(subst_pair(s, "**"@, "<strong>"@, "</strong>"@), "*"@, "<em>"@, "</em>"@),
            "~~"@,
            "<s>"@,
            "</s>"@,
        ),
    )
}

/// A line without a single occurrence of the delimiter's first character is
/// left unchanged by the pair rule.
pub proof fn lemma_subst_pair_id(s: Seq<char>, d: Seq<char>, ot: Seq<char>, ct: Seq<char>)
    requires
        d.len() >= 1,
        forall|i: int| 0 <= i < s.len() ==> s[i] != d[0],
    ensures
        subst_pair(s, d, ot, ct) == s,
{
    lemma_find_from_none(s, d, 0);
}

/// A line without an opening bracket is left unchanged by the link rule.
pub proof fn lemma_subst_link_id(s: Seq<char>)
    requires
        forall|i: int| 0 <= i < s.len() ==> s[i] != '[',
    ensures
        subst_link(s) == s,
{
    reveal_strlit("[");
    lemma_find_from_none(s, "["@, 0);
}

/// A line without any of the inline delimiter characters passes through the
/// whole inline formatter unchanged.
pub proof fn lemma_fmt_line_id(s: Seq<char>)
    requires
        forall|i: int|
            0 <= i < s.len() ==> s[i] != '*' && s[i] != '~' && s[i] != '[',
    ensures
        fmt_line(s) == s,
{
    reveal_strlit("**");
    reveal_strlit("*");
    reveal_strlit("~~");
    lemma_subst_pair_id(s, "**"@, "<strong>"@, "</strong>"@);
    lemma_subst_pair_id(s, "*"@, "<em>"@, "</em>"@);
    lemma_subst_pair_id(s, "~~"@, "<s>"@, "</s>"@);
    lemma_subst_link_id(s);
}

/// Compares `d` character by character against `s` at position `i`: returns
/// whether `d` occurs there.
pub fn occurs_check(s: &str, d: &str, i: usize, slen: usize, dlen: usize) -> (b: bool)
    requires
        slen == s@.len(),
        dlen == d@.len(),
        i + dlen <= slen,
    ensures
        b == occurs_at(s@, d@, i as int),
{
    let mut k: usize = 0;
    while k < dlen
        invariant
            slen == s@.len(),
            dlen == d@.len(),
            i + dlen <= slen,
            k <= dlen,
            forall|k2: int| 0 <= k2 < k ==> s@[i + k2] == d@[k2],
        decreases dlen - k,
    {
        if s.get_char(i + k) != d.get_char(k) {
            assert(!occurs_at(s@, d@, i as int));
            return false;
        }
        k += 1;
    }
    true
}

/// Finds the first occurrence of `d` in `s` at or after `from`.
pub fn find_str(s: &str, d: &str, from: usize) -> (r: Option<usize>)
    ensures
        match r {
            Some(i) => find_from(s@, d@, from as int) == Some(i as int) && from <= i && i
                + d@.len() <= s@.len() && d@.len() >= 1,
            None => find_from(s@, d@, from as int) == None::<int>,
        },
{
    let slen = s.unicode_len();
    let dlen = d.unicode_len();
    if dlen == 0 || from > slen || slen - from < dlen {
        assert(find_from(s@, d@, from as int) == None::<int>);
        return None;
    }
    let mut i = from;
    loop
        invariant
            slen == s@.len(),
            dlen == d@.len(),
            1 <= dlen <= slen,
            from <= i,
            i + dlen <= slen + 1,
            find_from(s@, d@, from as int) == find_from(s@, d@, i as int),
        decreases slen - i,
    {
        if i > slen - dlen {
            assert(find_from(s@, d@, i as int) == None::<int>);
            return None;
        }
        if occurs_check(s, d, i, slen, dlen) {
            assert(find_from(s@, d@, i as int) == Some(i as int));
            return Some(i);
        }
        assert(find_from(s@, d@, i as int) == find_from(s@, d@, i + 1));
        i += 1;
    }
}

/// Applies one pair rule to a line: every shortest span between two
/// occurrences of `d` is wrapped in `ot` and `ct`.
pub fn replace_pair(s: &str, d: &str, ot: &str, ct: &str) -> (r: String)
    ensures
        r@ == subst_pair(s@, d@, ot@, ct@),
    decreases s@.len(),
{
    let slen = s.unicode_len();
    let dlen = d.unicode_len();
    let i = match find_str(s, d, 0) {
        None => {
            return String::from_str(s);
        },
        Some(i) => i,
    };
    let j = match find_str(s, d, i + dlen) {
        None => {
            return String::from_str(s);
        },
        Some(j) => j,
    };
    proof {
        lemma_find_from_some(s@, d@, 0);
        lemma_find_from_some(s@, d@, i + dlen);
    }
    let mut r = String::from_str(s.substring_char(0, i));
    r.append(ot);
    r.append(s.substring_char(i + dlen, j));
    r.append(ct);
    let tail = replace_pair(s.substring_char(j + dlen, slen), d, ot, ct);
    r.append(tail.as_str());
    assert(r@ == subst_pair(s@, d@, ot@, ct@));
    r
}

/// Applies the link rule to a line: every shortest `[label](target)` span
/// becomes an anchor tag.
pub fn replace_links(s: &str) -> (r: String)
    ensures
        r@ == subst_link(s@),
    decreases s@.len(),
{
    proof {
        reveal_strlit("[");
        reveal_strlit("](");
        reveal_strlit(")");
    }
    let slen = s.unicode_len();
    let i = match find_str(s, "[", 0) {
        None => {
            return String::from_str(s);
        },
        Some(i) => i,
    };
    let j = match find_str(s, "](", i + 1) {
        None => {
            return String::from_str(s);
        },
        Some(j) => j,
    };
    let k = match find_str(s, ")", j + 2) {
        None => {
            return String::from_str(s);
        },
        Some(k) => k,
    };
    proof {
        lemma_find_from_some(s@, "["@, 0);
        lemma_find_from_some(s@, "]("@, i + 1);
        lemma_find_from_some(s@, ")"@, j + 2);
    }
    let mut r = String::from_str(s.substring_char(0, i));
    r.append("<a href=\"");
    r.append(s.substring_char(j + 2, k));
    r.append("\">");
    r.append(s.substring_char(i + 1, j));
    r.append("</a>");
    let tail = replace_links(s.substring_char(k + 1, slen));
    r.append(tail.as_str());
    assert(r@ == subst_link(s@));
    r
}

/// Rewrites one line with all four inline rules in their fixed order:
/// bold, italic, strikethrough, link.
pub fn format_inline(s: &str) -> (r: String)
    ensures
        r@ == fmt_line(s@),
{
    let bold = replace_pair(s, "**", "<strong>", "</strong>");
    let ital = replace_pair(bold.as_str(), "*", "<em>", "</em>");
    let strike = replace_pair(ital.as_str(), "~~", "<s>", "</s>");
    replace_links(strike.as_str())
}

} // verus!

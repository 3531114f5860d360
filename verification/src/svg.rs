use vstd::prelude::*;
use vstd::string::*;

use crate::escape::{escape, escaped, push_char};

verus! {

broadcast use vstd::string::group_string_axioms;

/// `s` with every line break taken out.
pub open spec fn without_newlines(s: Seq<char>) -> Seq<char>
    decreases s.len(),
{
    if s.len() == 0 {
        Seq::empty()
    } else if s.last() == '\n' {
        without_newlines(s.drop_last())
    } else {
        without_newlines(s.drop_last()).push(s.last())
    }
}

/// The texts of `parts`, one after the other.
pub open spec fn concat_all(parts: Seq<Seq<char>>) -> Seq<char>
    decreases parts.len(),
{
    if parts.len() == 0 {
        Seq::empty()
    } else {
        concat_all(parts.drop_last()) + parts.last()
    }
}

/// The views of a list of strings.
pub open spec fn string_views(parts: Seq<String>) -> Seq<Seq<char>> {
    parts.map_values(|p: String| p@)
}

/// Whether a text is on one line.
pub open spec fn has_no_newline(s: Seq<char>) -> bool {
    forall|i: int| 0 <= i < s.len() ==> #[trigger] s[i] != '\n'
}

/// Two texts on one line make one text on one line.
proof fn lemma_concat_has_no_newline(a: Seq<char>, b: Seq<char>)
    requires
        has_no_newline(a),
        has_no_newline(b),
    ensures
        has_no_newline(a + b),
{
    assert forall|i: int| 0 <= i < (a + b).len() implies #[trigger] (a + b)[i] != '\n' by {
        if i < a.len() {
            assert((a + b)[i] == a[i]);
        } else {
            assert((a + b)[i] == b[i - a.len()]);
        }
    }
}

/// Appends `s` to `res` with every line break taken out.
fn append_without_newlines(res: &mut String, s: &str)
    ensures
        final(res)@ == old(res)@ + without_newlines(s@),
{
    let ghost start = res@;
    for c in it: s.chars()
        invariant
            it.seq() == s@,
            res@ == start + without_newlines(s@.take(it.index())),
    {
        proof {
            assert(s@.take(it.index() + 1).drop_last() =~= s@.take(it.index()));
        }
        if c != '\n' {
            push_char(res, c);
        }
    }
    proof {
        assert(s@.take(s@.len() as int) =~= s@);
    }
}

/// The SVG element of an outline, from its path data: line breaks in the data
/// are dropped, so that the element is on one line.
pub fn svg_path_element(d: &str) -> (res: String)
    ensures
        res@ == "<path d=\""@ + without_newlines(d@) + "\" />"@,
        has_no_newline(res@),
{
    let mut res = String::from_str("<path d=\"");
    append_without_newlines(&mut res, d);
    res.append("\" />");
    proof {
        reveal_strlit("<path d=\"");
        reveal_strlit("\" />");
        lemma_without_newlines_has_none(d@);
        lemma_concat_has_no_newline("<path d=\""@, without_newlines(d@));
        lemma_concat_has_no_newline("<path d=\""@ + without_newlines(d@), "\" />"@);
    }
    res
}

/// A group that draws `child` moved by (`tx`, `ty`) and scaled by (`sx`, `sy`);
/// the numbers come already written out. The group is on one line when its
/// numbers and its child are.
pub fn svg_transformed(tx: &str, ty: &str, sx: &str, sy: &str, child: &str) -> (res: String)
    ensures
        res@ == "<g transform=\"translate("@ + tx@ + ","@ + ty@ + ") "@ + "scale("@ + sx@ + ","@
            + sy@ + ")\">"@ + child@ + "</g>"@,
        has_no_newline(tx@) && has_no_newline(ty@) && has_no_newline(sx@) && has_no_newline(sy@)
            && has_no_newline(child@) ==> has_no_newline(res@),
{
    let mut res = String::from_str("<g transform=\"translate(");
    res.append(tx);
    res.append(",");
    res.append(ty);
    res.append(") ");
    res.append("scale(");
    res.append(sx);
    res.append(",");
    res.append(sy);
    res.append(")\">");
    res.append(child);
    res.append("</g>");
    proof {
        if has_no_newline(tx@) && has_no_newline(ty@) && has_no_newline(sx@) && has_no_newline(
            sy@,
        ) && has_no_newline(child@) {
            reveal_strlit("<g transform=\"translate(");
            reveal_strlit(",");
            reveal_strlit(") ");
            reveal_strlit("scale(");
            reveal_strlit(")\">");
            reveal_strlit("</g>");
            let s1 = "<g transform=\"translate("@ + tx@;
            lemma_concat_has_no_newline("<g transform=\"translate("@, tx@);
            let s2 = s1 + ","@;
            lemma_concat_has_no_newline(s1, ","@);
            let s3 = s2 + ty@;
            lemma_concat_has_no_newline(s2, ty@);
            let s4 = s3 + ") "@;
            lemma_concat_has_no_newline(s3, ") "@);
            let s5 = s4 + "scale("@;
            lemma_concat_has_no_newline(s4, "scale("@);
            let s6 = s5 + sx@;
            lemma_concat_has_no_newline(s5, sx@);
            let s7 = s6 + ","@;
            lemma_concat_has_no_newline(s6, ","@);
            let s8 = s7 + sy@;
            lemma_concat_has_no_newline(s7, sy@);
            let s9 = s8 + ")\">"@;
            lemma_concat_has_no_newline(s8, ")\">"@);
            let s10 = s9 + child@;
            lemma_concat_has_no_newline(s9, child@);
            lemma_concat_has_no_newline(s10, "</g>"@);
        }
    }
    res
}

/// Every text of the list is on one line.
pub open spec fn all_without_newline(parts: Seq<Seq<char>>) -> bool {
    forall|i: int| 0 <= i < parts.len() ==> has_no_newline(#[trigger] parts[i])
}

/// Texts on one line, put one after the other, are on one line.
proof fn lemma_concat_all_has_no_newline(parts: Seq<Seq<char>>)
    requires
        all_without_newline(parts),
    ensures
        has_no_newline(concat_all(parts)),
    decreases parts.len(),
{
    if parts.len() > 0 {
        assert(all_without_newline(parts.drop_last()));
        lemma_concat_all_has_no_newline(parts.drop_last());
        assert(has_no_newline(parts[parts.len() - 1]));
        lemma_concat_has_no_newline(concat_all(parts.drop_last()), parts.last());
    }
}

/// A group that draws the already written `parts`, in order. The group is on
/// one line when its parts are.
pub fn svg_group(parts: &Vec<String>) -> (res: String)
    ensures
        res@ == "<g>"@ + concat_all(string_views(parts@)) + "</g>"@,
        all_without_newline(string_views(parts@)) ==> has_no_newline(res@),
{
    let mut res = String::from_str("<g>");
    let ghost start = res@;
    let n = parts.len();
    let mut i: usize = 0;
    while i < n
        invariant
            n == parts@.len(),
            i <= n,
            res@ == start + concat_all(string_views(parts@).take(i as int)),
        decreases n - i,
    {
        proof {
            assert(string_views(parts@).take(i + 1).drop_last() =~= string_views(parts@).take(
                i as int,
            ));
        }
        res.append(parts[i].as_str());
        i = i + 1;
    }
    proof {
        assert(string_views(parts@).take(n as int) =~= string_views(parts@));
    }
    res.append("</g>");
    proof {
        if all_without_newline(string_views(parts@)) {
            reveal_strlit("<g>");
            reveal_strlit("</g>");
            let body = concat_all(string_views(parts@));
            lemma_concat_all_has_no_newline(string_views(parts@));
            lemma_concat_has_no_newline("<g>"@, body);
            lemma_concat_has_no_newline("<g>"@ + body, "</g>"@);
        }
    }
    res
}

/// The SVG element of a text of the given (written out) font size. The text is
/// escaped and its line breaks are dropped, so that the element is on one line
/// when the font size is.
pub fn svg_text_element(font_size: &str, text: &str) -> (res: String)
    ensures
        res@ == "<text style=\"font-size: "@ + font_size@
            + "px; font-family: Palatino, 'Palatino Linotype', 'Palatino LT STD', 'Book Antiqua', Georgia, serif; \">"@
            + without_newlines(escaped(text@)) + "</text>"@,
        has_no_newline(font_size@) ==> has_no_newline(res@),
{
    let mut res = String::from_str("<text style=\"font-size: ");
    res.append(font_size);
    res.append(
        "px; font-family: Palatino, 'Palatino Linotype', 'Palatino LT STD', 'Book Antiqua', Georgia, serif; \">",
    );
    let body = escape(text);
    append_without_newlines(&mut res, body.as_str());
    res.append("</text>");
    proof {
        if has_no_newline(font_size@) {
            reveal_strlit("<text style=\"font-size: ");
            reveal_strlit(
                "px; font-family: Palatino, 'Palatino Linotype', 'Palatino LT STD', 'Book Antiqua', Georgia, serif; \">",
            );
            reveal_strlit("</text>");
            let l1 = "<text style=\"font-size: "@;
            let l2 = "px; font-family: Palatino, 'Palatino Linotype', 'Palatino LT STD', 'Book Antiqua', Georgia, serif; \">"@;
            let w = without_newlines(escaped(text@));
            lemma_without_newlines_has_none(escaped(text@));
            lemma_concat_has_no_newline(l1, font_size@);
            lemma_concat_has_no_newline(l1 + font_size@, l2);
            lemma_concat_has_no_newline(l1 + font_size@ + l2, w);
            lemma_concat_has_no_newline(l1 + font_size@ + l2 + w, "</text>"@);
        }
    }
    res
}

/// A whole SVG document, US-letter sized, that draws `body` with the vertical
/// axis pointing up.
pub fn svg_document(body: &str) -> (res: String)
    ensures
        res@ == "<svg viewBox=\"0 0 215.9 279.4\" width=\"215.9mm\" height=\"279.4mm\" xmlns=\"http://www.w3.org/2000/svg\" xmlns:xlink=\"http://www.w3.org/1999/xlink\"><g transform=\"scale(1, -1)\">"@
            + body@ + "</g></svg>\n"@,
{
    let mut res = String::from_str(
        "<svg viewBox=\"0 0 215.9 279.4\" width=\"215.9mm\" height=\"279.4mm\" xmlns=\"http://www.w3.org/2000/svg\" xmlns:xlink=\"http://www.w3.org/1999/xlink\"><g transform=\"scale(1, -1)\">",
    );
    res.append(body);
    res.append("</g></svg>\n");
    res
}

/// Taking out the line breaks leaves none behind.
pub proof fn lemma_without_newlines_has_none(s: Seq<char>)
    ensures
        has_no_newline(without_newlines(s)),
    decreases s.len(),
{
    if s.len() > 0 {
        lemma_without_newlines_has_none(s.drop_last());
        let w = without_newlines(s.drop_last());
        assert forall|i: int| 0 <= i < without_newlines(s).len() implies #[trigger] without_newlines(
            s,
        )[i] != '\n' by {
            if i < w.len() {
                assert(without_newlines(s)[i] == w[i]);
            }
        }
    }
}

/// Adding one more part to a group adds exactly that part's text at the end.
pub proof fn lemma_concat_all_push(parts: Seq<Seq<char>>, p: Seq<char>)
    ensures
        concat_all(parts.push(p)) == concat_all(parts) + p,
{
    assert(parts.push(p).drop_last() =~= parts);
}

/// The text of two lists of parts, one after the other, is the text of the
/// first list followed by the text of the second: no part is lost, repeated or
/// moved.
pub proof fn lemma_concat_all_append(a: Seq<Seq<char>>, b: Seq<Seq<char>>)
    ensures
        concat_all(a + b) == concat_all(a) + concat_all(b),
        concat_all(a + b).len() == concat_all(a).len() + concat_all(b).len(),
    decreases b.len(),
{
    if b.len() == 0 {
        assert(a + b =~= a);
        assert(concat_all(a) + concat_all(b) =~= concat_all(a));
    } else {
        assert((a + b).drop_last() =~= a + b.drop_last());
        assert((a + b).last() == b.last());
        lemma_concat_all_append(a, b.drop_last());
        assert(concat_all(a) + concat_all(b) =~= concat_all(a) + concat_all(b.drop_last())
            + b.last());
    }
}

/// Taking out line breaks keeps every other character, in order: a character
/// other than a line break added at the end stays at the end, and a line break
/// added at the end goes.
pub proof fn lemma_without_newlines_push(s: Seq<char>, c: char)
    ensures
        c != '\n' ==> without_newlines(s.push(c)) == without_newlines(s).push(c),
        c == '\n' ==> without_newlines(s.push(c)) == without_newlines(s),
{
    assert(s.push(c).drop_last() =~= s);
}

/// Taking out line breaks works piece by piece.
pub proof fn lemma_without_newlines_concat(a: Seq<char>, b: Seq<char>)
    ensures
        without_newlines(a + b) == without_newlines(a) + without_newlines(b),
    decreases b.len(),
{
    if b.len() == 0 {
        assert(a + b =~= a);
        assert(without_newlines(a) + without_newlines(b) =~= without_newlines(a));
    } else {
        assert((a + b).drop_last() =~= a + b.drop_last());
        assert((a + b).last() == b.last());
        lemma_without_newlines_concat(a, b.drop_last());
        if b.last() == '\n' {
        } else {
            assert(without_newlines(a) + without_newlines(b) =~= (without_newlines(a)
                + without_newlines(b.drop_last())).push(b.last()));
        }
    }
}

/// A text that is already on one line is left exactly as it is.
pub proof fn lemma_without_newlines_keeps_one_line_text(s: Seq<char>)
    requires
        has_no_newline(s),
    ensures
        without_newlines(s) == s,
    decreases s.len(),
{
    if s.len() > 0 {
        assert(s[s.len() - 1] != '\n');
        assert(has_no_newline(s.drop_last()));
        lemma_without_newlines_keeps_one_line_text(s.drop_last());
        assert(s.drop_last().push(s.last()) =~= s);
    }
}

} // verus!

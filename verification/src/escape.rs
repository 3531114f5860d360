use vstd::prelude::*;
use vstd::string::*;

verus! {

broadcast use vstd::string::group_string_axioms;

/// What one character becomes inside SVG text: the five markup characters
/// turn into entities, every other character stays as it is.
pub open spec fn escaped_char(c: char) -> Seq<char> {
    if c == '>' {
        seq!['&', 'g', 't', ';']
    } else if c == '<' {
        seq!['&', 'l', 't', ';']
    } else if c == '&' {
        seq!['&', 'a', 'm', 'p', ';']
    } else if c == '\'' {
        seq!['&', '#', '3', '9', ';']
    } else if c == '"' {
        seq!['&', 'q', 'u', 'o', 't', ';']
    } else {
        seq![c]
    }
}

/// The escaped form of a whole text: each character replaced by its escaped form,
/// in order.
pub open spec fn escaped(s: Seq<char>) -> Seq<char>
    decreases s.len(),
{
    if s.len() == 0 {
        Seq::empty()
    } else {
        escaped(s.drop_last()) + escaped_char(s.last())
    }
}

/// `String::push`: appends one character at the end of the string.
#[verifier::external_body]
pub(crate) fn push_char(s: &mut String, c: char)
    ensures
        final(s)@ == old(s)@.push(c),
{
    s.push(c);
}

/// Escapes the characters `<`, `>`, `&`, `'` and `"` of `s` for use as SVG text.
pub fn escape(s: &str) -> (res: String)
    ensures
        res@ == escaped(s@),
{
    let mut res = String::new();
    for c in it: s.chars()
        invariant
            it.seq() == s@,
            res@ == escaped(s@.take(it.index())),
    {
        let ghost done = s@.take(it.index());
        proof {
            assert(s@.take(it.index() + 1).drop_last() =~= done);
        }
        if c == '>' {
            proof { reveal_strlit("&gt;"); }
            res.append("&gt;");
        } else if c == '<' {
            proof { reveal_strlit("&lt;"); }
            res.append("&lt;");
        } else if c == '&' {
            proof { reveal_strlit("&amp;"); }
            res.append("&amp;");
        } else if c == '\'' {
            proof { reveal_strlit("&#39;"); }
            res.append("&#39;");
        } else if c == '"' {
            proof { reveal_strlit("&quot;"); }
            res.append("&quot;");
        } else {
            push_char(&mut res, c);
        }
    }
    proof {
        assert(s@.take(s@.len() as int) =~= s@);
    }
    res
}

/// The characters that SVG text must not hold as they are.
pub open spec fn is_markup_char(c: char) -> bool {
    c == '<' || c == '>' || c == '&' || c == '\'' || c == '"'
}

/// Escaping works character by character: escaping a concatenation is the
/// concatenation of the escaped pieces.
pub proof fn lemma_escaped_concat(a: Seq<char>, b: Seq<char>)
    ensures
        escaped(a + b) == escaped(a) + escaped(b),
    decreases b.len(),
{
    if b.len() == 0 {
        assert(a + b =~= a);
        assert(escaped(a) + escaped(b) =~= escaped(a));
    } else {
        assert((a + b).drop_last() =~= a + b.drop_last());
        assert((a + b).last() == b.last());
        lemma_escaped_concat(a, b.drop_last());
        assert(escaped(a) + escaped(b) =~= escaped(a) + escaped(b.drop_last()) + escaped_char(
            b.last(),
        ));
    }
}

/// Escaped text holds no `<`, `>`, `'` or `"`.
pub proof fn lemma_escaped_has_no_markup(s: Seq<char>)
    ensures
        forall|i: int|
            0 <= i < escaped(s).len() ==> {
                let c = #[trigger] escaped(s)[i];
                c != '<' && c != '>' && c != '\'' && c != '"'
            },
    decreases s.len(),
{
    if s.len() > 0 {
        lemma_escaped_has_no_markup(s.drop_last());
        let e = escaped(s.drop_last());
        let t = escaped_char(s.last());
        assert forall|i: int| 0 <= i < escaped(s).len() implies {
            let c = #[trigger] escaped(s)[i];
            c != '<' && c != '>' && c != '\'' && c != '"'
        } by {
            if i >= e.len() {
                assert(escaped(s)[i] == t[i - e.len()]);
            } else {
                assert(escaped(s)[i] == e[i]);
            }
        }
    }
}

/// Text without markup characters is left exactly as it is.
pub proof fn lemma_escape_keeps_plain_text(s: Seq<char>)
    requires
        forall|i: int| 0 <= i < s.len() ==> !is_markup_char(#[trigger] s[i]),
    ensures
        escaped(s) == s,
    decreases s.len(),
{
    if s.len() > 0 {
        assert(!is_markup_char(s[s.len() - 1]));
        lemma_escape_keeps_plain_text(s.drop_last());
        assert(s.drop_last().push(s.last()) =~= s);
    }
}

/// Appending one character to a text appends a fixed piece to its escaped
/// form: `&gt;` for `>`, `&lt;` for `<`, `&amp;` for `&`, `&#39;` for `'`,
/// `&quot;` for `"`, and the character itself for every other character.
pub proof fn lemma_escape_appends_entity(s: Seq<char>, c: char)
    ensures
        c == '>' ==> escaped(s.push(c)) == escaped(s) + seq!['&', 'g', 't', ';'],
        c == '<' ==> escaped(s.push(c)) == escaped(s) + seq!['&', 'l', 't', ';'],
        c == '&' ==> escaped(s.push(c)) == escaped(s) + seq!['&', 'a', 'm', 'p', ';'],
        c == '\'' ==> escaped(s.push(c)) == escaped(s) + seq!['&', '#', '3', '9', ';'],
        c == '"' ==> escaped(s.push(c)) == escaped(s) + seq!['&', 'q', 'u', 'o', 't', ';'],
        c != '>' && c != '<' && c != '&' && c != '\'' && c != '"' ==> escaped(s.push(c))
            == escaped(s).push(c),
{
    assert(s.push(c).drop_last() =~= s);
    assert(escaped(s) + seq![c] =~= escaped(s).push(c));
}

/// Every `&` at position `i` of `e` starts a complete entity inside `e`.
pub open spec fn entity_at(e: Seq<char>, i: int) -> bool {
    ||| (i + 3 < e.len() && e[i + 1] == 'g' && e[i + 2] == 't' && e[i + 3] == ';')
    ||| (i + 3 < e.len() && e[i + 1] == 'l' && e[i + 2] == 't' && e[i + 3] == ';')
    ||| (i + 4 < e.len() && e[i + 1] == 'a' && e[i + 2] == 'm' && e[i + 3] == 'p' && e[i + 4]
        == ';')
    ||| (i + 4 < e.len() && e[i + 1] == '#' && e[i + 2] == '3' && e[i + 3] == '9' && e[i + 4]
        == ';')
    ||| (i + 5 < e.len() && e[i + 1] == 'q' && e[i + 2] == 'u' && e[i + 3] == 'o' && e[i + 4]
        == 't' && e[i + 5] == ';')
}

/// In escaped text every `&` begins one of the five entities, complete.
#[verifier::rlimit(40)]
pub proof fn lemma_escaped_ampersands_begin_entities(s: Seq<char>)
    ensures
        forall|i: int|
            0 <= i < escaped(s).len() && #[trigger] escaped(s)[i] == '&' ==> entity_at(
                escaped(s),
                i,
            ),
    decreases s.len(),
{
    if s.len() > 0 {
        lemma_escaped_ampersands_begin_entities(s.drop_last());
        let e0 = escaped(s.drop_last());
        let t = escaped_char(s.last());
        let e = escaped(s);
        assert(e == e0 + t);
        assert forall|i: int| 0 <= i < e.len() && #[trigger] e[i] == '&' implies entity_at(
            e,
            i,
        ) by {
            if i < e0.len() {
                assert(e[i] == e0[i]);
                assert(entity_at(e0, i));
                assert forall|k: int| 0 <= k < e0.len() implies e[k] == e0[k] by {}
            } else {
                let j = i - e0.len();
                assert(e[i] == t[j]);
                assert forall|k: int| 0 <= k < t.len() implies e[e0.len() + k] == t[k] by {}
            }
        }
    }
}

/// Different characters have different escaped forms.
proof fn lemma_escaped_char_injective(x: char, y: char)
    requires
        escaped_char(x) == escaped_char(y),
    ensures
        x == y,
{
    let t = escaped_char(x);
    assert(t.len() == escaped_char(y).len());
    assert(t[0] == escaped_char(y)[0]);
    if t.len() > 1 {
        assert(t[1] == escaped_char(y)[1]);
    }
}

/// When two escaped texts followed by one escaped character each are equal,
/// the characters' pieces are equal and so are the texts before them.
#[verifier::rlimit(40)]
proof fn lemma_last_pieces_agree(ea: Seq<char>, eb: Seq<char>, x: char, y: char)
    requires
        ea + escaped_char(x) == eb + escaped_char(y),
        forall|i: int| 0 <= i < ea.len() && #[trigger] ea[i] == '&' ==> entity_at(ea, i),
        forall|i: int| 0 <= i < eb.len() && #[trigger] eb[i] == '&' ==> entity_at(eb, i),
    ensures
        escaped_char(x) == escaped_char(y),
        ea == eb,
{
    let tx = escaped_char(x);
    let ty = escaped_char(y);
    let e = ea + tx;
    assert(e == eb + ty);
    assert(e.len() == ea.len() + tx.len());
    assert((eb + ty).len() == eb.len() + ty.len());
    assert forall|k: int| 0 <= k < tx.len() implies e[ea.len() + k] == tx[k] by {}
    assert forall|k: int| 0 <= k < ty.len() implies e[eb.len() + k] == ty[k] by {}
    assert forall|k: int| 0 <= k < ea.len() implies e[k] == ea[k] by {}
    assert forall|k: int| 0 <= k < eb.len() implies e[k] == eb[k] by {}
    if tx.len() < ty.len() {
        // `ty` is an entity; its `&` would sit in `ea` without a complete entity.
        let i = eb.len() as int;
        assert(e[i] == '&');
        assert(e[i] == ea[i]);
        assert(entity_at(ea, i));
        assert(false);
    } else if ty.len() < tx.len() {
        let i = ea.len() as int;
        assert(e[i] == '&');
        assert(e[i] == eb[i]);
        assert(entity_at(eb, i));
        assert(false);
    }
    assert(tx =~= ty);
    assert(ea =~= eb);
}

/// Escaping loses nothing: two texts with the same escaped form are the same
/// text.
#[verifier::rlimit(40)]
pub proof fn lemma_escape_injective(a: Seq<char>, b: Seq<char>)
    requires
        escaped(a) == escaped(b),
    ensures
        a == b,
    decreases a.len(),
{
    if a.len() == 0 {
        if b.len() > 0 {
            assert(escaped(b).len() >= escaped_char(b.last()).len());
        }
        assert(b =~= a);
    } else if b.len() == 0 {
        assert(escaped(a).len() >= escaped_char(a.last()).len());
    } else {
        let x = a.last();
        let y = b.last();
        lemma_escaped_ampersands_begin_entities(a.drop_last());
        lemma_escaped_ampersands_begin_entities(b.drop_last());
        lemma_last_pieces_agree(escaped(a.drop_last()), escaped(b.drop_last()), x, y);
        lemma_escaped_char_injective(x, y);
        lemma_escape_injective(a.drop_last(), b.drop_last());
        assert(a =~= a.drop_last().push(x));
        assert(b =~= b.drop_last().push(y));
    }
}

} // verus!

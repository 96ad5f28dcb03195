//! Text inside HTML.
use vstd::prelude::*;

verus! {

/// How `c` is written inside HTML.
pub open spec fn escaped_char(c: char) -> Seq<char> {
    if c == '&' {
        "&amp;"@
    } else if c == '<' {
        "&lt;"@
    } else if c == '>' {
        "&gt;"@
    } else if c == '"' {
        "&quot;"@
    } else if c == '\'' {
        "&#39;"@
    } else {
        seq![c]
    }
}

/// How `s` is written inside HTML.
pub open spec fn escaped(s: Seq<char>) -> Seq<char>
    decreases s.len(),
{
    if s.len() == 0 {
        Seq::empty()
    } else {
        escaped_char(s[0]) + escaped(s.drop_first())
    }
}

/// Is `c` one of the characters that mean something in HTML?
pub open spec fn is_special(c: char) -> bool {
    c == '&' || c == '<' || c == '>' || c == '"' || c == '\''
}

proof fn lemma_entities()
    ensures
        "&amp;"@ == seq!['&', 'a', 'm', 'p', ';'],
        "&lt;"@ == seq!['&', 'l', 't', ';'],
        "&gt;"@ == seq!['&', 'g', 't', ';'],
        "&quot;"@ == seq!['&', 'q', 'u', 'o', 't', ';'],
        "&#39;"@ == seq!['&', '#', '3', '9', ';'],
{
    reveal_strlit("&amp;");
    reveal_strlit("&lt;");
    reveal_strlit("&gt;");
    reveal_strlit("&quot;");
    reveal_strlit("&#39;");
    assert("&amp;"@ =~= seq!['&', 'a', 'm', 'p', ';']);
    assert("&lt;"@ =~= seq!['&', 'l', 't', ';']);
    assert("&gt;"@ =~= seq!['&', 'g', 't', ';']);
    assert("&quot;"@ =~= seq!['&', 'q', 'u', 'o', 't', ';']);
    assert("&#39;"@ =~= seq!['&', '#', '3', '9', ';']);
}

proof fn lemma_escaped_push(s: Seq<char>, c: char)
    ensures
        escaped(s.push(c)) == escaped(s) + escaped_char(c),
    decreases s.len(),
{
    if s.len() == 0 {
        assert(s.push(c).drop_first() == Seq::<char>::empty());
        assert(escaped(Seq::<char>::empty()) == Seq::<char>::empty());
        assert(escaped(s.push(c)) =~= escaped(s) + escaped_char(c));
    } else {
        lemma_escaped_push(s.drop_first(), c);
        assert(s.push(c).drop_first() == s.drop_first().push(c));
        assert(escaped(s.push(c)) =~= escaped(s) + escaped_char(c));
    }
}

/// Text that is written inside HTML cannot end a tag, an attribute or a text: of the characters
/// that mean something there, only the one that starts an escape is left.
pub proof fn law_escaped_has_no_markup(s: Seq<char>)
    ensures
        forall|i: int|
            0 <= i < escaped(s).len() ==> {
                let c = #[trigger] escaped(s)[i];
                c != '<' && c != '>' && c != '"' && c != '\''
            },
    decreases s.len(),
{
    if s.len() > 0 {
        lemma_entities();
        law_escaped_has_no_markup(s.drop_first());
        let first = escaped_char(s[0]);
        assert forall|i: int| 0 <= i < escaped(s).len() implies {
            let c = #[trigger] escaped(s)[i];
            c != '<' && c != '>' && c != '"' && c != '\''
        } by {
            if i >= first.len() {
                assert(escaped(s)[i] == escaped(s.drop_first())[i - first.len()]);
            } else {
                assert(escaped(s)[i] == first[i]);
            }
        }
    }
}

/// Text without special characters is written as it is.
pub proof fn law_plain_text_is_unchanged(s: Seq<char>)
    requires
        forall|i: int| 0 <= i < s.len() ==> !is_special(#[trigger] s[i]),
    ensures
        escaped(s) == s,
    decreases s.len(),
{
    if s.len() > 0 {
        assert forall|i: int| 0 <= i < s.drop_first().len() implies !is_special(
            #[trigger] s.drop_first()[i],
        ) by {
            assert(s.drop_first()[i] == s[i + 1]);
        }
        law_plain_text_is_unchanged(s.drop_first());
        assert(escaped(s) =~= s);
    } else {
        assert(escaped(s) =~= s);
    }
}

/// Two texts that are written alike are the same: a reader sees the text that was meant.
pub proof fn law_escape_is_unambiguous(a: Seq<char>, b: Seq<char>)
    requires
        escaped(a) == escaped(b),
    ensures
        a == b,
    decreases a.len(),
{
    lemma_entities();
    if a.len() == 0 {
        if b.len() > 0 {
            assert(escaped(b).len() > 0);
        }
        assert(a =~= b);
    } else if b.len() == 0 {
        assert(escaped(a).len() > 0);
    } else {
        let x = escaped_char(a[0]);
        let y = escaped_char(b[0]);
        let s = escaped(a.drop_first());
        let t = escaped(b.drop_first());
        let whole = x + s;
        assert(whole == y + t);
        assert(whole[0] == x[0] && whole[0] == y[0]);
        if is_special(a[0]) || is_special(b[0]) {
            assert(whole[1] == x[1] && whole[1] == y[1]);
        }
        assert(a[0] == b[0]);
        assert(whole.skip(x.len() as int) =~= s);
        assert(whole.skip(x.len() as int) =~= t);
        law_escape_is_unambiguous(a.drop_first(), b.drop_first());
        assert(a =~= seq![a[0]] + a.drop_first());
        assert(b =~= seq![b[0]] + b.drop_first());
    }
}

/// `s`, as it is written inside HTML.
pub fn escape_html(s: &str) -> (out: String)
    ensures
        out@ == escaped(s@),
{
    let mut out: String = String::new();
    assert(s@.take(0) == Seq::<char>::empty());
    for c in it: s.chars()
        invariant
            it.seq() == s@,
            out@ == escaped(s@.take(it.index())),
    {
        proof {
            lemma_escaped_push(s@.take(it.index()), c);
            assert(s@.take(it.index() + 1) == s@.take(it.index()).push(c));
        }
        match c {
            '&' => out.append("&amp;"),
            '<' => out.append("&lt;"),
            '>' => out.append("&gt;"),
            '"' => out.append("&quot;"),
            '\'' => out.append("&#39;"),
            _ => out.push(c),
        }
        assert(out@ == escaped(s@.take(it.index())) + escaped_char(c));
    }
    assert(s@.take(s@.len() as int) == s@);
    out
}

/// Text is escaped character by character, each on its own: what stands before and after a
/// character is written as it is written alone, and between them stands the name of the character
/// in HTML if it means something there, or the character itself.
pub proof fn law_each_character_is_escaped_on_its_own(
    before: &str,
    c: char,
    after: &str,
    whole: &str,
    parts: (String, String),
    out: String,
)
    requires
        whole@ == before@.push(c) + after@,
        call_ensures(escape_html, (before,), parts.0),
        call_ensures(escape_html, (after,), parts.1),
        call_ensures(escape_html, (whole,), out),
    ensures
        out@ == parts.0@ + match c {
            '&' => seq!['&', 'a', 'm', 'p', ';'],
            '<' => seq!['&', 'l', 't', ';'],
            '>' => seq!['&', 'g', 't', ';'],
            '"' => seq!['&', 'q', 'u', 'o', 't', ';'],
            '\'' => seq!['&', '#', '3', '9', ';'],
            _ => seq![c],
        } + parts.1@,
        before@.len() == 0 ==> parts.0@.len() == 0,
{
    lemma_entities();
    lemma_escaped_push(before@, c);
    lemma_escaped_sum(before@.push(c), after@);
}

proof fn lemma_escaped_sum(a: Seq<char>, b: Seq<char>)
    ensures
        escaped(a + b) == escaped(a) + escaped(b),
    decreases b.len(),
{
    if b.len() == 0 {
        assert(a + b =~= a);
        assert(escaped(b) =~= Seq::<char>::empty());
        assert(escaped(a) + escaped(b) =~= escaped(a));
    } else {
        lemma_escaped_sum(a, b.drop_last());
        assert(a + b =~= (a + b.drop_last()).push(b.last()));
        assert(b =~= b.drop_last().push(b.last()));
        lemma_escaped_push(a + b.drop_last(), b.last());
        lemma_escaped_push(b.drop_last(), b.last());
        assert(escaped(a + b) =~= escaped(a) + escaped(b));
    }
}

} // verus!

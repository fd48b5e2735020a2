//! Escaping text for the files and pages that it is put into.

use vstd::prelude::*;

use crate::text::expanded;
use crate::text::lemma_expanded_push;
use crate::text::lemma_expanded_without;

verus! {

/// What a text is escaped for.
#[derive(Debug, Clone, Copy, PartialEq, Eq, Structural)]
pub enum Escape {
    /// A quoted value in a systemd unit.
    Systemd,
    /// Text or an attribute in XML.
    Xml,
    /// Text or a double-quoted attribute in HTML.
    Html,
}

/// What a character becomes.
pub open spec fn escaped_char(style: Escape, c: char) -> Seq<char> {
    match style {
        Escape::Systemd => if c == '\\' {
            seq!['\\', '\\']
        } else if c == '"' {
            seq!['\\', '"']
        } else if c == '%' {
            seq!['%', '%']
        } else {
            seq![c]
        },
        Escape::Xml => if c == '\'' {
            "&apos;"@
        } else {
            escaped_markup(c)
        },
        Escape::Html => escaped_markup(c),
    }
}

/// What a character becomes in markup, but for the apostrophe.
pub open spec fn escaped_markup(c: char) -> Seq<char> {
    if c == '&' {
        "&amp;"@
    } else if c == '<' {
        "&lt;"@
    } else if c == '>' {
        "&gt;"@
    } else if c == '"' {
        "&quot;"@
    } else {
        seq![c]
    }
}

/// What a text becomes.
pub open spec fn escaped(style: Escape, s: Seq<char>) -> Seq<char> {
    expanded(s, |c: char| escaped_char(style, c))
}

/// Appends what a character becomes.
fn push_escaped(out: &mut String, style: Escape, c: char)
    ensures
        final(out)@ == old(out)@ + escaped_char(style, c),
{
    match style {
        Escape::Systemd => {
            if c == '\\' || c == '"' {
                out.push('\\');
            } else if c == '%' {
                out.push('%');
            }
            out.push(c);
            assert(out@ =~= old(out)@ + escaped_char(style, c));
        },
        Escape::Xml => {
            if c == '\'' {
                out.push_str("&apos;");
            } else {
                push_markup(out, c);
            }
        },
        Escape::Html => push_markup(out, c),
    }
}

/// Appends what a character becomes in markup, but for the apostrophe.
fn push_markup(out: &mut String, c: char)
    ensures
        final(out)@ == old(out)@ + escaped_markup(c),
{
    if c == '&' {
        out.push_str("&amp;");
    } else if c == '<' {
        out.push_str("&lt;");
    } else if c == '>' {
        out.push_str("&gt;");
    } else if c == '"' {
        out.push_str("&quot;");
    } else {
        out.push(c);
        assert(out@ =~= old(out)@ + seq![c]);
    }
}

/// Escapes a text.
pub fn escape(style: Escape, s: &str) -> (r: String)
    ensures
        r@ == escaped(style, s@),
{
    let ghost f = |c: char| escaped_char(style, c);
    let mut out = String::new();
    for c in it: s.chars()
        invariant
            f == (|c: char| escaped_char(style, c)),
            out@ == expanded(it.seq().take(it.index()), f),
            it.seq() == s@,
    {
        push_escaped(&mut out, style, c);
        proof {
            lemma_expanded_push(it.seq().take(it.index()), c, f);
            assert(it.seq().take(it.index() + 1) =~= it.seq().take(it.index()).push(c));
        }
    }
    assert(s@.take(s@.len() as int) =~= s@);
    out
}

/// The first character's part stands at the start.
proof fn lemma_expanded_first(s: Seq<char>, f: spec_fn(char) -> Seq<char>)
    requires
        s.len() > 0,
    ensures
        expanded(s, f) == f(s[0]) + expanded(s.drop_first(), f),
    decreases s.len(),
{
    if s.len() == 1 {
        assert(s.drop_last() =~= Seq::<char>::empty());
        assert(s.drop_first() =~= Seq::<char>::empty());
        assert(expanded(Seq::<char>::empty(), f) =~= Seq::<char>::empty());
        assert(expanded(s, f) =~= f(s[0]));
        assert(f(s[0]) + expanded(s.drop_first(), f) =~= f(s[0]));
    } else {
        lemma_expanded_first(s.drop_last(), f);
        assert(s.drop_last().drop_first() =~= s.drop_first().drop_last());
        assert(expanded(s, f) =~= f(s[0]) + expanded(s.drop_first(), f));
    }
}

/// What two characters become agrees in its first two characters only if they are the same.
proof fn lemma_prefix_free(style: Escape, c: char, d: char, x: Seq<char>, y: Seq<char>)
    requires
        escaped_char(style, c) + x == escaped_char(style, d) + y,
    ensures
        c == d,
        x == y,
{
    let a = escaped_char(style, c);
    let b = escaped_char(style, d);
    reveal_strlit("&apos;");
    reveal_strlit("&amp;");
    reveal_strlit("&lt;");
    reveal_strlit("&gt;");
    reveal_strlit("&quot;");
    assert((a + x)[0] == a[0] && (b + y)[0] == b[0]);
    if a.len() > 1 && b.len() > 1 {
        assert((a + x)[1] == a[1] && (b + y)[1] == b[1]);
        if a.len() > 2 && b.len() > 2 {
            assert((a + x)[2] == a[2] && (b + y)[2] == b[2]);
        }
    }
    assert(c == d);
    assert(x =~= (a + x).skip(a.len() as int));
    assert(y =~= (b + y).skip(b.len() as int));
}

/// Escaping loses nothing: different texts stay different.
pub proof fn lemma_escape_is_faithful(style: Escape, a: Seq<char>, b: Seq<char>)
    requires
        escaped(style, a) == escaped(style, b),
    ensures
        a == b,
    decreases a.len(),
{
    let f = |c: char| escaped_char(style, c);
    lemma_escaped_nonempty(style, a);
    lemma_escaped_nonempty(style, b);
    if a.len() > 0 {
        assert(b.len() > 0);
        lemma_expanded_first(a, f);
        lemma_expanded_first(b, f);
        lemma_prefix_free(
            style,
            a[0],
            b[0],
            expanded(a.drop_first(), f),
            expanded(b.drop_first(), f),
        );
        lemma_escape_is_faithful(style, a.drop_first(), b.drop_first());
        assert(a =~= seq![a[0]] + a.drop_first());
        assert(b =~= seq![b[0]] + b.drop_first());
    } else {
        assert(a =~= b);
    }
}

proof fn lemma_escaped_nonempty(style: Escape, s: Seq<char>)
    ensures
        escaped(style, s).len() == 0 <==> s.len() == 0,
{
    reveal_strlit("&apos;");
    reveal_strlit("&amp;");
    reveal_strlit("&lt;");
    reveal_strlit("&gt;");
    reveal_strlit("&quot;");
}

/// Escaped markup holds no character that could end the text or the attribute that it stands
/// in.
pub proof fn lemma_markup_is_inert(style: Escape, s: Seq<char>)
    requires
        style == Escape::Xml || style == Escape::Html,
    ensures
        !escaped(style, s).contains('<'),
        !escaped(style, s).contains('>'),
        !escaped(style, s).contains('"'),
        style == Escape::Xml ==> !escaped(style, s).contains('\''),
{
    let f = |c: char| escaped_char(style, c);
    reveal_strlit("&apos;");
    reveal_strlit("&amp;");
    reveal_strlit("&lt;");
    reveal_strlit("&gt;");
    reveal_strlit("&quot;");
    assert forall|c: char| !(#[trigger] f(c)).contains('<') by {}
    assert forall|c: char| !(#[trigger] f(c)).contains('>') by {}
    assert forall|c: char| !(#[trigger] f(c)).contains('"') by {}
    lemma_expanded_without(s, f, '<');
    lemma_expanded_without(s, f, '>');
    lemma_expanded_without(s, f, '"');
    if style == Escape::Xml {
        assert forall|c: char| !(#[trigger] f(c)).contains('\'') by {}
        lemma_expanded_without(s, f, '\'');
    }
}

/// What escaping does, one character at a time. In HTML and XML an ampersand, an angle bracket
/// and a double quote become entities, in XML an apostrophe too. For systemd a backslash, a
/// double quote and a percent sign get one more character. Everything else stays itself.
pub proof fn lemma_escape_by_character(style: Escape, s: Seq<char>, c: char)
    ensures
        escaped(style, Seq::empty()) == Seq::<char>::empty(),
        ({
            let more = escaped(style, s.push(c));
            let before = escaped(style, s);
            let markup = style == Escape::Html || style == Escape::Xml;
            &&& markup && c == '&' ==> more == before + "&amp;"@
            &&& markup && c == '<' ==> more == before + "&lt;"@
            &&& markup && c == '>' ==> more == before + "&gt;"@
            &&& markup && c == '"' ==> more == before + "&quot;"@
            &&& style == Escape::Xml && c == '\'' ==> more == before + "&apos;"@
            &&& style == Escape::Html && c == '\'' ==> more == before.push(c)
            &&& style == Escape::Systemd && (c == '\\' || c == '"') ==> more == before.push(
                '\\',
            ).push(c)
            &&& style == Escape::Systemd && c == '%' ==> more == before.push('%').push('%')
            &&& markup && c != '&' && c != '<' && c != '>' && c != '"' && c != '\'' ==> more
                == before.push(c)
            &&& style == Escape::Systemd && c != '\\' && c != '"' && c != '%' ==> more
                == before.push(c)
        }),
{
    let f = |c: char| escaped_char(style, c);
    crate::text::lemma_expanded_push(s, c, f);
    let before = escaped(style, s);
    assert(escaped(style, s.push(c)) =~= before + escaped_char(style, c));
    assert(before + seq![c] =~= before.push(c));
    assert(before + seq!['\\', c] =~= before.push('\\').push(c));
    assert(before + seq!['%', '%'] =~= before.push('%').push('%'));
}

} // verus!

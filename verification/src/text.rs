//! Text as sequences of characters.
//!
//! Strings are modelled by the sequence of their characters. The functions here are the
//! text operations that the rest of the library is written with; each one comes with the
//! spec function that says what it computes.

use vstd::prelude::*;
use vstd::utf8::encode_scalar;
use vstd::utf8::encode_utf8;

verus! {

/// `String::push` appends the given character to the end of the string.
pub assume_specification[ String::push ](s: &mut String, c: char)
    ensures
        final(s)@ == old(s)@.push(c),
;

/// `String::push_str` appends the given string slice to the end of the string.
pub assume_specification[ String::push_str ](s: &mut String, other: &str)
    ensures
        final(s)@ == old(s)@ + other@,
;

/// The characters of a string slice.
pub fn chars_of(s: &str) -> (r: Vec<char>)
    ensures
        r@ == s@,
{
    let mut out: Vec<char> = Vec::new();
    for c in it: s.chars()
        invariant
            out@ == it.seq().take(it.index()),
            it.seq() == s@,
    {
        out.push(c);
    }
    out
}

/// The string made of the characters from `from` up to `to`.
pub fn slice_text(v: &Vec<char>, from: usize, to: usize) -> (r: String)
    requires
        from <= to <= v@.len(),
    ensures
        r@ == v@.subrange(from as int, to as int),
{
    let mut out = String::new();
    let mut i: usize = from;
    while i < to
        invariant
            from <= i <= to <= v@.len(),
            out@ == v@.subrange(from as int, i as int),
        decreases to - i,
    {
        out.push(v[i]);
        i += 1;
        assert(v@.subrange(from as int, i as int) =~= v@.subrange(from as int, i - 1).push(
            v@[i - 1],
        ));
    }
    out
}

/// The string made of all the given characters.
pub fn text_of(v: &Vec<char>) -> (r: String)
    ensures
        r@ == v@,
{
    let r = slice_text(v, 0, v.len());
    assert(v@.subrange(0, v@.len() as int) =~= v@);
    r
}

/// Whether two string slices hold the same characters.
pub fn same_text(a: &str, b: &str) -> (r: bool)
    ensures
        r == (a@ == b@),
{
    a.to_owned() == b.to_owned()
}

/// Whether an optional string holds exactly the given text.
pub fn is_text(a: &Option<String>, b: &str) -> (r: bool)
    ensures
        r == (a.deep_view() == Some(b@)),
{
    match a {
        Some(s) => same_text(s.as_str(), b),
        None => false,
    }
}

/// The concatenation of two string slices.
pub fn concat(a: &str, b: &str) -> (r: String)
    ensures
        r@ == a@ + b@,
{
    let mut out = a.to_owned();
    out.push_str(b);
    out
}

/// The concatenation of three string slices.
pub fn concat3(a: &str, b: &str, c: &str) -> (r: String)
    ensures
        r@ == a@ + b@ + c@,
{
    let mut out = a.to_owned();
    out.push_str(b);
    out.push_str(c);
    out
}

/// The views of a list of strings.
pub open spec fn texts(v: Seq<String>) -> Seq<Seq<char>> {
    v.map_values(|s: String| s@)
}

/// Pairs of texts.
pub open spec fn pairs(v: Seq<(String, String)>) -> Seq<(Seq<char>, Seq<char>)> {
    v.map_values(|p: (String, String)| (p.0@, p.1@))
}

/// A copy of a list of strings.
pub fn clone_texts(v: &Vec<String>) -> (r: Vec<String>)
    ensures
        r@ == v@,
{
    let mut out: Vec<String> = Vec::new();
    let mut i: usize = 0;
    while i < v.len()
        invariant
            i <= v@.len(),
            out@ == v@.take(i as int),
        decreases v@.len() - i,
    {
        out.push(v[i].clone());
        i += 1;
    }
    out
}

/// The list of one text.
pub fn words1(a: &str) -> (r: Vec<String>)
    ensures
        texts(r@) == seq![a@],
{
    let mut r: Vec<String> = Vec::new();
    r.push(a.to_owned());
    assert(texts(r@) =~= seq![a@]);
    r
}

/// The list of two texts.
pub fn words2(a: &str, b: &str) -> (r: Vec<String>)
    ensures
        texts(r@) == seq![a@, b@],
{
    let mut r: Vec<String> = Vec::new();
    r.push(a.to_owned());
    r.push(b.to_owned());
    assert(texts(r@) =~= seq![a@, b@]);
    r
}

/// The list of three texts.
pub fn words3(a: &str, b: &str, c: &str) -> (r: Vec<String>)
    ensures
        texts(r@) == seq![a@, b@, c@],
{
    let mut r: Vec<String> = Vec::new();
    r.push(a.to_owned());
    r.push(b.to_owned());
    r.push(c.to_owned());
    assert(texts(r@) =~= seq![a@, b@, c@]);
    r
}

/// The list of four texts.
pub fn words4(a: &str, b: &str, c: &str, d: &str) -> (r: Vec<String>)
    ensures
        texts(r@) == seq![a@, b@, c@, d@],
{
    let mut r: Vec<String> = Vec::new();
    r.push(a.to_owned());
    r.push(b.to_owned());
    r.push(c.to_owned());
    r.push(d.to_owned());
    assert(texts(r@) =~= seq![a@, b@, c@, d@]);
    r
}

/// Whether the list holds the given text.
pub fn texts_contain(v: &Vec<String>, needle: &str) -> (r: bool)
    ensures
        r == texts(v@).contains(needle@),
{
    let mut i: usize = 0;
    while i < v.len()
        invariant
            i <= v@.len(),
            forall|j: int| 0 <= j < i ==> texts(v@)[j] != needle@,
        decreases v@.len() - i,
    {
        if same_text(v[i].as_str(), needle) {
            assert(texts(v@)[i as int] == needle@);
            return true;
        }
        i += 1;
    }
    false
}

// ---------------------------------------------------------------------------------------
// Length in bytes

/// The number of bytes that the UTF-8 encoding of the text takes.
pub open spec fn byte_len(s: Seq<char>) -> nat {
    encode_utf8(s).len()
}

/// The number of bytes that the UTF-8 encoding of one character takes.
pub open spec fn char_bytes(c: char) -> nat {
    encode_scalar(c as u32).len()
}

/// Encoding distributes over concatenation.
pub proof fn lemma_encode_concat(a: Seq<char>, b: Seq<char>)
    ensures
        encode_utf8(a + b) == encode_utf8(a) + encode_utf8(b),
        byte_len(a + b) == byte_len(a) + byte_len(b),
    decreases a.len(),
{
    if a.len() == 0 {
        assert(a + b =~= b);
        assert(encode_utf8(a) + encode_utf8(b) =~= encode_utf8(b));
    } else {
        lemma_encode_concat(a.drop_first(), b);
        assert((a + b).drop_first() =~= a.drop_first() + b);
        assert(encode_utf8(a + b) =~= encode_utf8(a) + encode_utf8(b));
    }
}

/// Appending one character adds its width to the length in bytes.
pub proof fn lemma_byte_len_push(s: Seq<char>, c: char)
    ensures
        byte_len(s.push(c)) == byte_len(s) + char_bytes(c),
        1 <= char_bytes(c) <= 4,
{
    assert(s.push(c) =~= s + seq![c]);
    lemma_encode_concat(s, seq![c]);
    assert(seq![c].drop_first() =~= Seq::<char>::empty());
    reveal_with_fuel(encode_utf8, 2);
    assert(encode_utf8(seq![c]) =~= encode_scalar(c as u32));
}

/// Every character takes at least one byte.
pub proof fn lemma_byte_len_bound(s: Seq<char>)
    ensures
        s.len() <= byte_len(s),
        byte_len(s) == 0 <==> s.len() == 0,
    decreases s.len(),
{
    if s.len() > 0 {
        lemma_byte_len_bound(s.drop_last());
        lemma_byte_len_push(s.drop_last(), s.last());
        assert(s.drop_last().push(s.last()) =~= s);
    }
}

/// A text of ASCII characters has as many bytes as characters.
pub proof fn lemma_ascii_bytes(s: Seq<char>)
    requires
        forall|i: int| 0 <= i < s.len() ==> (#[trigger] s[i]) as u32 <= 0x7f,
    ensures
        byte_len(s) == s.len(),
    decreases s.len(),
{
    if s.len() > 0 {
        let init = s.drop_last();
        assert forall|i: int| 0 <= i < init.len() implies (#[trigger] init[i]) as u32 <= 0x7f by {
            assert(init[i] == s[i]);
        }
        lemma_ascii_bytes(init);
        lemma_byte_len_push(init, s.last());
        assert(s.last() == s[s.len() - 1]);
        assert(init.push(s.last()) =~= s);
    }
}

/// The number of bytes of one character.
pub fn char_width(c: char) -> (r: usize)
    ensures
        r == char_bytes(c),
        1 <= r <= 4,
{
    let v: u32 = c as u32;
    if v <= 0x7f {
        1
    } else if v <= 0x7ff {
        2
    } else if v <= 0xffff {
        3
    } else {
        4
    }
}

/// The number of bytes of a text.
pub fn text_bytes(s: &str) -> (r: usize)
    ensures
        r == byte_len(s@),
{
    s.as_bytes().len()
}

// ---------------------------------------------------------------------------------------
// White space and letter case

/// The characters with the Unicode property `White_Space`.
pub open spec fn is_space(c: char) -> bool {
    let v = c as u32;
    ||| 0x9 <= v <= 0xd
    ||| v == 0x20
    ||| v == 0x85
    ||| v == 0xa0
    ||| v == 0x1680
    ||| 0x2000 <= v <= 0x200a
    ||| v == 0x2028
    ||| v == 0x2029
    ||| v == 0x202f
    ||| v == 0x205f
    ||| v == 0x3000
}

/// Whether the character is white space.
pub fn space(c: char) -> (r: bool)
    ensures
        r == is_space(c),
{
    let v: u32 = c as u32;
    (0x9 <= v && v <= 0xd) || v == 0x20 || v == 0x85 || v == 0xa0 || v == 0x1680 || (0x2000 <= v
        && v <= 0x200a) || v == 0x2028 || v == 0x2029 || v == 0x202f || v == 0x205f || v == 0x3000
}

/// The text without its leading white space.
pub open spec fn trimmed_start(s: Seq<char>) -> Seq<char>
    decreases s.len(),
{
    if s.len() > 0 && is_space(s[0]) {
        trimmed_start(s.drop_first())
    } else {
        s
    }
}

/// The text without its trailing white space.
pub open spec fn trimmed_end(s: Seq<char>) -> Seq<char>
    decreases s.len(),
{
    if s.len() > 0 && is_space(s.last()) {
        trimmed_end(s.drop_last())
    } else {
        s
    }
}

/// The text without white space at either end.
pub open spec fn trimmed(s: Seq<char>) -> Seq<char> {
    trimmed_end(trimmed_start(s))
}

/// The number of leading white space characters.
pub fn leading_spaces(v: &Vec<char>, from: usize) -> (r: usize)
    requires
        from <= v@.len(),
    ensures
        from <= r <= v@.len(),
        trimmed_start(v@.skip(from as int)) == v@.skip(r as int),
        forall|j: int| from <= j < r ==> is_space(#[trigger] v@[j]),
{
    let mut i: usize = from;
    while i < v.len() && space(v[i])
        invariant
            from <= i <= v@.len(),
            trimmed_start(v@.skip(from as int)) == trimmed_start(v@.skip(i as int)),
            forall|j: int| from <= j < i ==> is_space(#[trigger] v@[j]),
        decreases v@.len() - i,
    {
        assert(v@.skip(i as int).drop_first() =~= v@.skip(i + 1));
        i += 1;
    }
    i
}

/// `str::trim`: the text without white space at either end.
pub fn trim(s: &str) -> (r: String)
    ensures
        r@ == trimmed(s@),
{
    let v = chars_of(s);
    let i = leading_spaces(&v, 0);
    assert(v@.skip(0) =~= v@);
    let mut j: usize = v.len();
    assert(v@.subrange(i as int, j as int) =~= v@.skip(i as int));
    while j > i && space(v[j - 1])
        invariant
            i <= j <= v@.len(),
            trimmed_end(v@.subrange(i as int, j as int)) == trimmed(s@),
        decreases j,
    {
        assert(v@.subrange(i as int, j as int).drop_last() =~= v@.subrange(i as int, j - 1));
        j -= 1;
    }
    slice_text(&v, i, j)
}

/// The text without the given character at its end.
pub open spec fn without_trailing(s: Seq<char>, c: char) -> Seq<char>
    decreases s.len(),
{
    if s.len() > 0 && s.last() == c {
        without_trailing(s.drop_last(), c)
    } else {
        s
    }
}

/// `str::trim_end_matches` with one character.
pub fn trim_end_char(s: &str, c: char) -> (r: String)
    ensures
        r@ == without_trailing(s@, c),
{
    let v = chars_of(s);
    let mut j: usize = v.len();
    assert(v@.take(j as int) =~= v@);
    while j > 0 && v[j - 1] == c
        invariant
            j <= v@.len(),
            without_trailing(v@.take(j as int), c) == without_trailing(s@, c),
        decreases j,
    {
        assert(v@.take(j as int).drop_last() =~= v@.take(j - 1));
        j -= 1;
    }
    assert(v@.subrange(0, j as int) =~= v@.take(j as int));
    slice_text(&v, 0, j)
}

/// The ASCII lower case of one character.
pub open spec fn lowered_char(c: char) -> char {
    if 'A' <= c && c <= 'Z' {
        (c as u32 + 32) as char
    } else {
        c
    }
}

/// The text with its ASCII letters in lower case.
pub open spec fn lowered(s: Seq<char>) -> Seq<char> {
    s.map_values(|c: char| lowered_char(c))
}

/// The ASCII lower case of one character.
pub fn lower_char(c: char) -> (r: char)
    ensures
        r == lowered_char(c),
{
    let v: u32 = c as u32;
    if 65 <= v && v <= 90 {
        (v as u8 + 32) as char
    } else {
        c
    }
}

/// `str::to_ascii_lowercase`.
pub fn to_ascii_lowercase(s: &str) -> (r: String)
    ensures
        r@ == lowered(s@),
{
    let mut out = String::new();
    for c in it: s.chars()
        invariant
            out@ == lowered(it.seq().take(it.index())),
            it.seq() == s@,
    {
        out.push(lower_char(c));
        proof {
            assert(it.seq().take(it.index() + 1) =~= it.seq().take(it.index()).push(c));
            assert(lowered(it.seq().take(it.index() + 1)) =~= lowered(
                it.seq().take(it.index()),
            ).push(lowered_char(c)));
        }
    }
    assert(s@.take(s@.len() as int) =~= s@);
    out
}

/// `str::eq_ignore_ascii_case`.
pub fn same_ignoring_case(a: &str, b: &str) -> (r: bool)
    ensures
        r == (lowered(a@) == lowered(b@)),
{
    let x = to_ascii_lowercase(a);
    let y = to_ascii_lowercase(b);
    same_text(x.as_str(), y.as_str())
}

// ---------------------------------------------------------------------------------------
// Prefixes, suffixes and searching

/// Whether `s` begins with `p`.
pub open spec fn begins_with(s: Seq<char>, p: Seq<char>) -> bool {
    p.len() <= s.len() && s.take(p.len() as int) == p
}

/// Whether `s` ends with `p`.
pub open spec fn finishes_with(s: Seq<char>, p: Seq<char>) -> bool {
    p.len() <= s.len() && s.skip(s.len() - p.len()) == p
}

/// Whether the characters of `p` stand in `v` at position `at`.
pub open spec fn stands_at(v: Seq<char>, p: Seq<char>, at: int) -> bool {
    0 <= at && at + p.len() <= v.len() && v.subrange(at, at + p.len()) == p
}

/// Whether the characters of `p` stand in `v` at position `at`.
pub fn matches_at(v: &Vec<char>, p: &Vec<char>, at: usize) -> (r: bool)
    requires
        at <= v@.len(),
    ensures
        r == stands_at(v@, p@, at as int),
{
    let total: usize = v.len();
    if total - at < p.len() {
        return false;
    }
    let mut i: usize = 0;
    while i < p.len()
        invariant
            at + p@.len() <= v@.len() == total,
            i <= p@.len(),
            forall|j: int| 0 <= j < i ==> v@[at + j] == p@[j],
        decreases p@.len() - i,
    {
        if v[at + i] != p[i] {
            assert(v@.subrange(at as int, at + p@.len())[i as int] != p@[i as int]);
            return false;
        }
        i += 1;
    }
    assert(v@.subrange(at as int, at + p@.len()) =~= p@);
    true
}

/// `str::starts_with`.
pub fn starts_with(s: &str, p: &str) -> (r: bool)
    ensures
        r == begins_with(s@, p@),
{
    let v = chars_of(s);
    let q = chars_of(p);
    assert(p@.len() <= s@.len() ==> s@.take(p@.len() as int) =~= s@.subrange(0, p@.len() as int));
    matches_at(&v, &q, 0)
}

/// `str::ends_with`.
pub fn ends_with(s: &str, p: &str) -> (r: bool)
    ensures
        r == finishes_with(s@, p@),
{
    let v = chars_of(s);
    let q = chars_of(p);
    if q.len() > v.len() {
        return false;
    }
    assert(s@.skip(s@.len() - p@.len()) =~= s@.subrange(s@.len() - p@.len(), s@.len() as int));
    matches_at(&v, &q, v.len() - q.len())
}

/// What follows the prefix `p`, where `s` begins with it.
pub open spec fn after_prefix(s: Seq<char>, p: Seq<char>) -> Option<Seq<char>> {
    if begins_with(s, p) {
        Some(s.skip(p.len() as int))
    } else {
        None
    }
}

/// `str::strip_prefix`.
pub fn strip_prefix(s: &str, p: &str) -> (r: Option<String>)
    ensures
        r.deep_view() == after_prefix(s@, p@),
{
    if starts_with(s, p) {
        let v = chars_of(s);
        let q = chars_of(p);
        assert(v@.subrange(q@.len() as int, v@.len() as int) =~= s@.skip(p@.len() as int));
        Some(slice_text(&v, q.len(), v.len()))
    } else {
        None
    }
}

/// The first position from `from` on at which the character stands.
pub fn find_char(v: &Vec<char>, c: char, from: usize) -> (r: Option<usize>)
    requires
        from <= v@.len(),
    ensures
        r matches Some(i) ==> from <= i < v@.len() && v@[i as int] == c && forall|j: int|
            from <= j < i ==> v@[j] != c,
        r is None ==> forall|j: int| from <= j < v@.len() ==> v@[j] != c,
{
    let mut i: usize = from;
    while i < v.len()
        invariant
            from <= i <= v@.len(),
            forall|j: int| from <= j < i ==> v@[j] != c,
        decreases v@.len() - i,
    {
        if v[i] == c {
            return Some(i);
        }
        i += 1;
    }
    None
}

/// Whether the character occurs in the text.
pub fn has_char(s: &str, c: char) -> (r: bool)
    ensures
        r == s@.contains(c),
{
    let v = chars_of(s);
    find_char(&v, c, 0).is_some()
}

// ---------------------------------------------------------------------------------------
// Splitting and joining

/// The parts of the text between occurrences of the character.
pub open spec fn parts(s: Seq<char>, c: char) -> Seq<Seq<char>>
    decreases s.len(),
{
    if s.len() == 0 {
        seq![Seq::<char>::empty()]
    } else {
        let before = parts(s.drop_last(), c);
        if s.last() == c {
            before.push(Seq::<char>::empty())
        } else {
            before.drop_last().push(before.last().push(s.last()))
        }
    }
}

/// There is always at least one part.
pub proof fn lemma_parts_nonempty(s: Seq<char>, c: char)
    ensures
        parts(s, c).len() > 0,
    decreases s.len(),
{
    if s.len() > 0 {
        lemma_parts_nonempty(s.drop_last(), c);
    }
}

/// A part holds nothing but characters of the text, and never the separator.
pub proof fn lemma_parts_chars(s: Seq<char>, c: char)
    ensures
        forall|i: int, j: int|
            0 <= i < parts(s, c).len() && 0 <= j < parts(s, c)[i].len() ==> (#[trigger] parts(
                s,
                c,
            )[i][j]) != c && s.contains(parts(s, c)[i][j]),
    decreases s.len(),
{
    if s.len() > 0 {
        let init = s.drop_last();
        let before = parts(init, c);
        lemma_parts_chars(init, c);
        lemma_parts_nonempty(init, c);
        assert forall|i: int, j: int|
            0 <= i < parts(s, c).len() && 0 <= j < parts(s, c)[i].len() implies (#[trigger] parts(
            s,
            c,
        )[i][j]) != c && s.contains(parts(s, c)[i][j]) by {
            let x = parts(s, c)[i][j];
            if i < before.len() && j < before[i].len() {
                assert(x == before[i][j]);
                let at = choose|at: int| 0 <= at < init.len() && init[at] == x;
                assert(s[at] == x);
            } else {
                assert(x == s.last());
                assert(s[s.len() - 1] == x);
            }
        }
    }
}

/// A text without the separator is its own only part.
pub proof fn lemma_single_part(s: Seq<char>, c: char)
    requires
        !s.contains(c),
    ensures
        parts(s, c) == seq![s],
    decreases s.len(),
{
    if s.len() > 0 {
        let init = s.drop_last();
        assert(!init.contains(c)) by {
            if init.contains(c) {
                let at = choose|at: int| 0 <= at < init.len() && init[at] == c;
                assert(s[at] == c);
            }
        }
        lemma_single_part(init, c);
        assert(s[s.len() - 1] == s.last());
        assert(init.push(s.last()) =~= s);
        assert(parts(s, c) =~= seq![s]);
    } else {
        assert(s =~= Seq::<char>::empty());
    }
}

/// Splitting at a character splits what stands before it and what stands behind it.
pub proof fn lemma_parts_append(a: Seq<char>, b: Seq<char>, c: char)
    ensures
        parts(a + seq![c] + b, c) == parts(a, c) + parts(b, c),
    decreases b.len(),
{
    let whole = a + seq![c] + b;
    if b.len() == 0 {
        assert(whole.drop_last() =~= a);
    } else {
        let shorter = a + seq![c] + b.drop_last();
        assert(whole.drop_last() =~= shorter);
        lemma_parts_append(a, b.drop_last(), c);
        lemma_parts_nonempty(b.drop_last(), c);
        let x = parts(a, c);
        let y = parts(b.drop_last(), c);
        assert((x + y).drop_last() =~= x + y.drop_last());
        assert((x + y).last() == y.last());
        assert(parts(whole, c) =~= x + parts(b, c));
    }
}

/// `str::split` with one character.
pub fn split(s: &str, c: char) -> (r: Vec<String>)
    ensures
        texts(r@) == parts(s@, c),
{
    let mut out: Vec<String> = Vec::new();
    let mut current = String::new();
    assert(texts(out@).push(current@) =~= parts(s@.take(0), c));
    for x in it: s.chars()
        invariant
            texts(out@).push(current@) == parts(it.seq().take(it.index()), c),
            it.seq() == s@,
    {
        let ghost before = it.seq().take(it.index());
        let ghost done = texts(out@);
        let ghost part = current@;
        if x == c {
            out.push(current);
            current = String::new();
            assert(texts(out@) =~= done.push(part));
        } else {
            current.push(x);
        }
        proof {
            assert(it.seq().take(it.index() + 1) =~= before.push(x));
            assert(before.push(x).drop_last() =~= before);
            assert(done.push(part).drop_last() =~= done);
        }
    }
    assert(s@.take(s@.len() as int) =~= s@);
    let ghost done = texts(out@);
    let ghost part = current@;
    out.push(current);
    assert(texts(out@) =~= done.push(part));
    out
}

/// A line without the carriage return at its end.
pub open spec fn without_return(s: Seq<char>) -> Seq<char> {
    if s.len() > 0 && s.last() == '\r' {
        s.drop_last()
    } else {
        s
    }
}

/// The lines of a text. A line ends with a line feed or with a carriage return and a line
/// feed; the last line need not end with either.
pub open spec fn lines_of(s: Seq<char>) -> Seq<Seq<char>> {
    let all = parts(s, '\n');
    let ended = all.drop_last().map_values(|l: Seq<char>| without_return(l));
    if all.last().len() == 0 {
        ended
    } else {
        ended.push(all.last())
    }
}

/// The line without the carriage return at its end.
fn strip_return(s: &str) -> (r: String)
    ensures
        r@ == without_return(s@),
{
    let v = chars_of(s);
    let n: usize = v.len();
    if n > 0 && v[n - 1] == '\r' {
        assert(v@.subrange(0, n - 1) =~= s@.drop_last());
        slice_text(&v, 0, n - 1)
    } else {
        assert(v@.subrange(0, n as int) =~= s@);
        slice_text(&v, 0, n)
    }
}

/// `str::lines`.
pub fn lines(s: &str) -> (r: Vec<String>)
    ensures
        texts(r@) == lines_of(s@),
{
    let all = split(s, '\n');
    proof {
        lemma_parts_nonempty(s@, '\n');
    }
    let mut out: Vec<String> = Vec::new();
    let last: usize = all.len() - 1;
    let mut i: usize = 0;
    while i < last
        invariant
            i <= last < all@.len(),
            texts(out@) == texts(all@).take(i as int).map_values(
                |l: Seq<char>| without_return(l),
            ),
        decreases last - i,
    {
        let ghost done = texts(out@);
        let line = strip_return(all[i].as_str());
        let ghost shown = line@;
        out.push(line);
        i += 1;
        assert(texts(out@) =~= done.push(shown));
        assert(texts(all@).take(i as int) =~= texts(all@).take(i - 1).push(all@[i - 1]@));
        assert(texts(all@).take(i as int).map_values(|l: Seq<char>| without_return(l))
            =~= texts(all@).take(i - 1).map_values(|l: Seq<char>| without_return(l)).push(
            without_return(all@[i - 1]@),
        ));
    }
    assert(texts(all@).take(last as int) =~= texts(all@).drop_last());
    if !all[last].as_str().is_empty() {
        let ghost done = texts(out@);
        out.push(all[last].clone());
        assert(texts(out@) =~= done.push(all@[last as int]@));
    }
    out
}

/// The parts of the text between white space.
pub open spec fn fields_of(s: Seq<char>) -> Seq<Seq<char>>
    decreases s.len(),
{
    if s.len() == 0 {
        Seq::<Seq<char>>::empty()
    } else {
        let before = fields_of(s.drop_last());
        if is_space(s.last()) {
            before
        } else if s.len() > 1 && !is_space(s[s.len() - 2]) {
            before.drop_last().push(before.last().push(s.last()))
        } else {
            before.push(seq![s.last()])
        }
    }
}

/// `str::split_whitespace`.
pub fn split_whitespace(s: &str) -> (r: Vec<String>)
    ensures
        texts(r@) == fields_of(s@),
{
    let v = chars_of(s);
    let mut out: Vec<String> = Vec::new();
    let mut current = String::new();
    let mut i: usize = 0;
    let mut inside = false;
    assert(texts(out@) =~= fields_of(v@.take(0)));
    while i < v.len()
        invariant
            i <= v@.len(),
            inside <==> i > 0 && !is_space(v@[i - 1]),
            inside ==> texts(out@).push(current@) == fields_of(v@.take(i as int)),
            !inside ==> texts(out@) == fields_of(v@.take(i as int)) && current@.len() == 0,
        decreases v@.len() - i,
    {
        let c = v[i];
        let ghost before = v@.take(i as int);
        let ghost done = texts(out@);
        let ghost part = current@;
        assert(v@.take(i + 1) =~= before.push(c));
        assert(before.push(c).drop_last() =~= before);
        if space(c) {
            if inside {
                out.push(current);
                current = String::new();
                assert(texts(out@) =~= done.push(part));
            }
            inside = false;
        } else {
            current.push(c);
            proof {
                if inside {
                    assert(done.push(part).drop_last() =~= done);
                } else {
                    assert(current@ =~= seq![c]);
                }
            }
            inside = true;
        }
        i += 1;
    }
    assert(v@.take(v@.len() as int) =~= s@);
    if inside {
        let ghost done = texts(out@);
        let ghost part = current@;
        out.push(current);
        assert(texts(out@) =~= done.push(part));
    }
    out
}

/// The texts put together with a separator between each two.
pub open spec fn joined(v: Seq<Seq<char>>, sep: Seq<char>) -> Seq<char>
    decreases v.len(),
{
    if v.len() == 0 {
        Seq::<char>::empty()
    } else if v.len() == 1 {
        v[0]
    } else {
        joined(v.drop_last(), sep) + sep + v.last()
    }
}

/// Lines that are put together with line feeds between them are found again, where none is
/// empty or holds a line feed or a carriage return.
pub proof fn lemma_lines_of_joined(v: Seq<Seq<char>>)
    requires
        v.len() > 0,
        forall|i: int|
            0 <= i < v.len() ==> (#[trigger] v[i]).len() > 0 && !v[i].contains('\n')
                && !v[i].contains('\r'),
    ensures
        lines_of(joined(v, "\n"@)) == v,
{
    lemma_parts_of_joined(v);
    let init = v.drop_last();
    assert(init.map_values(|l: Seq<char>| without_return(l)) =~= init) by {
        assert forall|i: int| 0 <= i < init.len() implies without_return(
            #[trigger] init[i],
        ) == init[i] by {
            let l = v[i];
            assert(l[l.len() - 1] == l.last());
        }
    }
    assert(v.last() == v[v.len() - 1]);
    assert(init.push(v.last()) =~= v);
}

proof fn lemma_parts_of_joined(v: Seq<Seq<char>>)
    requires
        v.len() > 0,
        forall|i: int| 0 <= i < v.len() ==> !(#[trigger] v[i]).contains('\n'),
    ensures
        parts(joined(v, "\n"@), '\n') == v,
    decreases v.len(),
{
    reveal_strlit("\n");
    assert("\n"@ =~= seq!['\n']);
    assert(v.last() == v[v.len() - 1]);
    lemma_single_part(v.last(), '\n');
    if v.len() == 1 {
        assert(v =~= seq![v[0]]);
    } else {
        let init = v.drop_last();
        lemma_parts_of_joined(init);
        lemma_parts_append(joined(init, "\n"@), v.last(), '\n');
        assert(init + seq![v.last()] =~= v);
    }
}

/// The parts between line feeds, put together again, are the text.
pub proof fn lemma_joined_parts(s: Seq<char>)
    ensures
        joined(parts(s, '\n'), "\n"@) == s,
    decreases s.len(),
{
    reveal_strlit("\n");
    if s.len() == 0 {
        assert(joined(parts(s, '\n'), "\n"@) =~= s);
    } else {
        let init = s.drop_last();
        let before = parts(init, '\n');
        lemma_joined_parts(init);
        lemma_parts_nonempty(init, '\n');
        let now = parts(s, '\n');
        assert(init.push(s.last()) =~= s);
        if s.last() == '\n' {
            assert(now.drop_last() =~= before);
            assert(joined(now, "\n"@) =~= joined(before, "\n"@).push('\n'));
        } else {
            let grown = before.last().push(s.last());
            assert(now.drop_last() =~= before.drop_last());
            assert(now.last() == grown);
            if before.len() == 1 {
                assert(before.last() == before[0]);
                assert(joined(now, "\n"@) == grown);
            } else {
                assert(joined(now, "\n"@) =~= joined(before, "\n"@).push(s.last()));
            }
        }
    }
}

/// Texts that are put together are their first ones and their last ones put together.
pub proof fn lemma_joined_split(v: Seq<Seq<char>>, sep: Seq<char>, k: int)
    requires
        0 < k < v.len(),
    ensures
        joined(v, sep) == joined(v.take(k), sep) + sep + joined(v.skip(k), sep),
    decreases v.len(),
{
    let init = v.drop_last();
    if k == v.len() - 1 {
        assert(v.take(k) =~= init);
        assert(v.skip(k)[0] == v.last());
    } else {
        lemma_joined_split(init, sep, k);
        assert(init.take(k) =~= v.take(k));
        assert(v.skip(k).drop_last() =~= init.skip(k));
        assert(v.skip(k).last() == v.last());
        assert(joined(v, sep) =~= joined(v.take(k), sep) + sep + joined(v.skip(k), sep));
    }
}

/// `[String]::join` on the strings from `from` on.
pub fn join_from(v: &Vec<String>, from: usize, sep: &str) -> (r: String)
    requires
        from <= v@.len(),
    ensures
        r@ == joined(texts(v@).skip(from as int), sep@),
{
    let mut out = String::new();
    let mut i: usize = from;
    while i < v.len()
        invariant
            from <= i <= v@.len(),
            out@ == joined(texts(v@).subrange(from as int, i as int), sep@),
        decreases v@.len() - i,
    {
        let ghost before = texts(v@).subrange(from as int, i as int);
        if i > from {
            out.push_str(sep);
        }
        out.push_str(v[i].as_str());
        i += 1;
        proof {
            let now = texts(v@).subrange(from as int, i as int);
            assert(now.drop_last() =~= before);
            if before.len() == 0 {
                assert(Seq::<char>::empty() + v@[i - 1]@ =~= v@[i - 1]@);
            }
        }
    }
    assert(texts(v@).subrange(from as int, v@.len() as int) =~= texts(v@).skip(from as int));
    out
}

// ---------------------------------------------------------------------------------------
// Replacing characters

/// The text with every character replaced by what `f` gives for it.
pub open spec fn expanded(s: Seq<char>, f: spec_fn(char) -> Seq<char>) -> Seq<char>
    decreases s.len(),
{
    if s.len() == 0 {
        Seq::<char>::empty()
    } else {
        expanded(s.drop_last(), f) + f(s.last())
    }
}

/// Expanding one character more.
pub proof fn lemma_expanded_push(s: Seq<char>, c: char, f: spec_fn(char) -> Seq<char>)
    ensures
        expanded(s.push(c), f) == expanded(s, f) + f(c),
{
    assert(s.push(c).drop_last() =~= s);
}

/// If `f` never gives the character `x`, it is not in the expanded text.
pub proof fn lemma_expanded_without(s: Seq<char>, f: spec_fn(char) -> Seq<char>, x: char)
    requires
        forall|c: char| !(#[trigger] f(c)).contains(x),
    ensures
        !expanded(s, f).contains(x),
    decreases s.len(),
{
    if s.len() > 0 {
        lemma_expanded_without(s.drop_last(), f, x);
        let a = expanded(s.drop_last(), f);
        let b = f(s.last());
        assert forall|i: int| 0 <= i < (a + b).len() implies (a + b)[i] != x by {
            if i < a.len() {
                assert(a.contains(a[i]));
            } else {
                assert(b.contains(b[i - a.len()]));
            }
        }
    }
}

// ---------------------------------------------------------------------------------------
// Numbers

/// The character of a decimal digit.
pub open spec fn digit_char(d: nat) -> char {
    (48 + d) as u8 as char
}

/// The decimal numeral of a number, without leading zeros.
pub open spec fn numeral(n: nat) -> Seq<char>
    decreases n,
{
    if n < 10 {
        seq![digit_char(n)]
    } else {
        numeral(n / 10).push(digit_char(n % 10))
    }
}

/// The decimal numeral of an integer, with a minus sign where it is negative.
pub open spec fn signed_numeral(n: int) -> Seq<char> {
    if n < 0 {
        seq!['-'] + numeral((-n) as nat)
    } else {
        numeral(n as nat)
    }
}

/// The decimal numeral of a number.
pub fn decimal(n: u64) -> (r: String)
    ensures
        r@ == numeral(n as nat),
    decreases n,
{
    let d: u8 = (n % 10) as u8;
    let c: char = (48 + d) as char;
    if n < 10 {
        let mut out = String::new();
        out.push(c);
        assert(out@ =~= seq![digit_char(n as nat)]);
        out
    } else {
        let mut out = decimal(n / 10);
        out.push(c);
        out
    }
}

/// The decimal numeral of an integer.
pub fn signed_decimal(n: i32) -> (r: String)
    ensures
        r@ == signed_numeral(n as int),
{
    if n < 0 {
        let mut out = String::new();
        out.push('-');
        let m: i64 = -(n as i64);
        let digits = decimal(m as u64);
        assert(out@ =~= seq!['-']);
        out.push_str(digits.as_str());
        out
    } else {
        decimal(n as u64)
    }
}

/// Whether the character is a decimal digit.
pub open spec fn is_digit(c: char) -> bool {
    '0' <= c && c <= '9'
}

/// The value that a sequence of decimal digits stands for.
pub open spec fn digits_value(s: Seq<char>) -> nat
    decreases s.len(),
{
    if s.len() == 0 {
        0
    } else {
        digits_value(s.drop_last()) * 10 + (s.last() as u32 - 48) as nat
    }
}

/// The number that a text stands for: decimal digits, after an optional plus sign, whose
/// value fits 64 bits.
pub open spec fn number_in(s: Seq<char>) -> Option<u64> {
    let digits = without_plus(s);
    if digits.len() > 0 && all_digits(digits) && digits_value(digits) <= u64::MAX {
        Some(digits_value(digits) as u64)
    } else {
        None
    }
}

/// The text without a plus sign at its start.
pub open spec fn without_plus(s: Seq<char>) -> Seq<char> {
    if s.len() > 0 && s[0] == '+' {
        s.drop_first()
    } else {
        s
    }
}

/// Whether every character is a decimal digit.
pub open spec fn all_digits(s: Seq<char>) -> bool {
    forall|i: int| 0 <= i < s.len() ==> is_digit(#[trigger] s[i])
}

/// The value of a decimal digit.
fn digit_value(c: char) -> (r: Option<u64>)
    ensures
        r is Some <==> is_digit(c),
        r matches Some(d) ==> d == (c as u32 - 48) as nat && d < 10,
{
    let v: u32 = c as u32;
    if 48 <= v && v <= 57 {
        Some((v - 48) as u64)
    } else {
        None
    }
}

/// `str::parse::<u64>`, with the reason for a failure dropped.
pub fn parse_u64(s: &str) -> (r: Option<u64>)
    ensures
        r == number_in(s@),
{
    let v = chars_of(s);
    let from: usize = if v.len() > 0 && v[0] == '+' {
        1
    } else {
        0
    };
    let ghost digits = v@.skip(from as int);
    proof {
        if from == 1 {
            assert(digits =~= s@.drop_first());
        } else {
            assert(digits =~= s@);
        }
    }
    if from == v.len() {
        return None;
    }
    let mut value: u64 = 0;
    let mut large = false;
    let mut i: usize = from;
    while i < v.len()
        invariant
            from <= i <= v@.len(),
            digits == v@.skip(from as int),
            digits == without_plus(s@),
            forall|j: int| 0 <= j < i - from ==> is_digit(#[trigger] digits[j]),
            !large ==> value == digits_value(digits.take(i - from)),
            large ==> digits_value(digits.take(i - from)) > u64::MAX,
        decreases v@.len() - i,
    {
        let digit = digit_value(v[i]);
        assert(digits[i - from] == v@[i as int]);
        assert(digits.take(i + 1 - from).drop_last() =~= digits.take(i - from));
        match digit {
            None => {
                assert(!is_digit(digits[i - from]));
                return None;
            },
            Some(d) => {
                if !large {
                    if value > (u64::MAX - d) / 10 {
                        large = true;
                    } else {
                        value = value * 10 + d;
                    }
                }
            },
        }
        i += 1;
    }
    assert(digits.take(digits.len() as int) =~= digits);
    if large {
        None
    } else {
        Some(value)
    }
}

// ---------------------------------------------------------------------------------------
// What holds of texts

/// White space at the start does not matter to what is left without it, and what starts with
/// anything else is left as it is.
pub proof fn lemma_trimmed_start(space: Seq<char>, s: Seq<char>)
    requires
        forall|i: int| 0 <= i < space.len() ==> is_space(#[trigger] space[i]),
    ensures
        trimmed_start(space + s) == trimmed_start(s),
        s.len() == 0 || !is_space(s[0]) ==> trimmed_start(space + s) == s,
    decreases space.len(),
{
    if space.len() == 0 {
        assert(space + s =~= s);
    } else {
        let rest = space.drop_first();
        assert forall|i: int| 0 <= i < rest.len() implies is_space(#[trigger] rest[i]) by {
            assert(rest[i] == space[i + 1]);
        }
        lemma_trimmed_start(rest, s);
        assert(is_space(space[0]));
        assert((space + s).drop_first() =~= rest + s);
    }
}

/// White space at the end does not matter to what is left without it, and what ends with
/// anything else is left as it is.
pub proof fn lemma_trimmed_end(s: Seq<char>, space: Seq<char>)
    requires
        forall|i: int| 0 <= i < space.len() ==> is_space(#[trigger] space[i]),
    ensures
        trimmed_end(s + space) == trimmed_end(s),
        s.len() == 0 || !is_space(s.last()) ==> trimmed_end(s + space) == s,
    decreases space.len(),
{
    if space.len() == 0 {
        assert(s + space =~= s);
    } else {
        let rest = space.drop_last();
        assert forall|i: int| 0 <= i < rest.len() implies is_space(#[trigger] rest[i]) by {
            assert(rest[i] == space[i]);
        }
        lemma_trimmed_end(s, rest);
        assert(is_space(space[space.len() - 1]));
        assert((s + space).drop_last() =~= s + rest);
    }
}

/// What is left of a text between white space is the text.
pub proof fn lemma_trimmed(before: Seq<char>, s: Seq<char>, after: Seq<char>)
    requires
        forall|i: int| 0 <= i < before.len() ==> is_space(#[trigger] before[i]),
        forall|i: int| 0 <= i < after.len() ==> is_space(#[trigger] after[i]),
        s.len() == 0 || (!is_space(s[0]) && !is_space(s.last())),
    ensures
        trimmed(before + s + after) == s,
{
    assert(before + s + after =~= before + (s + after));
    if s.len() > 0 {
        lemma_trimmed_start(before, s + after);
    } else {
        lemma_trimmed_start(before, after);
        let nothing = Seq::<char>::empty();
        lemma_trimmed_start(after, nothing);
        assert(after + nothing =~= after);
        assert(s + after =~= after);
    }
    lemma_trimmed_end(s, after);
    if s.len() == 0 {
        lemma_trimmed_end(s, Seq::empty());
        assert(s =~= Seq::<char>::empty());
    }
}

/// The white space among ASCII characters: the blank, and the controls from the tab to the
/// carriage return.
pub proof fn lemma_ascii_spaces(c: char)
    requires
        c as u32 <= 0x7f,
    ensures
        is_space(c) <==> c == ' ' || ('\t' <= c && c <= '\r'),
{
}

/// Lower case, character by character: a capital letter becomes the small one, everything else
/// stays itself.
pub proof fn lemma_lowered(s: Seq<char>, i: int)
    requires
        0 <= i < s.len(),
    ensures
        lowered(s).len() == s.len(),
        'A' <= s[i] && s[i] <= 'Z' ==> lowered(s)[i] as u32 == s[i] as u32 + 32,
        !('A' <= s[i] && s[i] <= 'Z') ==> lowered(s)[i] == s[i],
{
}

/// What a character stands behind and before decides whether a text begins with another one,
/// ends with it or holds it at a position.
pub proof fn lemma_text_in_text(a: Seq<char>, p: Seq<char>, b: Seq<char>, s: Seq<char>, at: int)
    ensures
        begins_with(p + b, p),
        after_prefix(p + b, p) == Some(b),
        finishes_with(a + p, p),
        stands_at(a + p + b, p, a.len() as int),
        begins_with(s, p) <==> after_prefix(s, p) is Some,
        begins_with(s, p) ==> s == p + after_prefix(s, p)->0,
        finishes_with(s, p) ==> s == s.take(s.len() - p.len()) + p,
        stands_at(s, p, at) ==> 0 <= at <= s.len() - p.len() && s == s.take(at) + p + s.skip(
            at + p.len(),
        ),
{
    assert((p + b).take(p.len() as int) =~= p);
    assert((p + b).skip(p.len() as int) =~= b);
    assert((a + p).skip(a.len() as int) =~= p);
    assert((a + p + b).subrange(a.len() as int, (a.len() + p.len()) as int) =~= p);
    if begins_with(s, p) {
        assert(s =~= s.take(p.len() as int) + s.skip(p.len() as int));
    }
    if finishes_with(s, p) {
        assert(s =~= s.take(s.len() - p.len()) + s.skip(s.len() - p.len()));
    }
    if stands_at(s, p, at) {
        assert(s =~= s.take(at) + s.subrange(at, at + p.len()) + s.skip(at + p.len()));
    }
}

/// Without a character at its end, however often it stands there, what is left does not end
/// with it.
pub proof fn lemma_without_trailing(s: Seq<char>, c: char, n: nat)
    requires
        s.len() == 0 || s.last() != c,
    ensures
        without_trailing(s + Seq::new(n, |i: int| c), c) == s,
    decreases n,
{
    let end = Seq::new(n, |i: int| c);
    if n == 0 {
        assert(s + end =~= s);
    } else {
        let m = (n - 1) as nat;
        lemma_without_trailing(s, c, m);
        assert((s + end).drop_last() =~= s + Seq::new(m, |i: int| c));
        assert((s + end).last() == c);
    }
}

/// One line at a time. The lines of a text are its first line, without the carriage return that
/// may stand before the line feed, and then the lines of what follows the line feed. A text
/// without a line feed is one line, or none where it is empty.
pub proof fn lemma_lines(line: Seq<char>, rest: Seq<char>)
    requires
        !line.contains('\n'),
    ensures
        lines_of(line + seq!['\n'] + rest) == seq![
            if line.len() > 0 && line.last() == '\r' {
                line.drop_last()
            } else {
                line
            },
        ] + lines_of(rest),
        line.len() > 0 ==> lines_of(line) == seq![line],
        lines_of(Seq::<char>::empty()) == Seq::<Seq<char>>::empty(),
{
    let nothing = Seq::<char>::empty();
    lemma_single_part(line, '\n');
    lemma_parts_append(line, rest, '\n');
    lemma_parts_nonempty(rest, '\n');
    let all = parts(line + seq!['\n'] + rest, '\n');
    let ps = parts(rest, '\n');
    assert(all =~= seq![line] + ps);
    assert(all.last() == ps.last());
    let f = |l: Seq<char>| without_return(l);
    assert(all.drop_last().map_values(f) =~= seq![without_return(line)] + ps.drop_last().map_values(f));
    assert(lines_of(line + seq!['\n'] + rest) =~= seq![without_return(line)] + lines_of(rest));
    if line.len() > 0 {
        assert(seq![line].drop_last().map_values(f) =~= Seq::<Seq<char>>::empty());
        assert(lines_of(line) =~= seq![line]);
    }
    assert(parts(nothing, '\n').drop_last().map_values(f) =~= Seq::<Seq<char>>::empty());
    assert(lines_of(nothing) =~= Seq::<Seq<char>>::empty());
}

/// One word at a time. White space yields no words, a text without white space is one word, and
/// the words on both sides of a white space are the words of the two sides.
pub proof fn lemma_fields(a: Seq<char>, space: char, b: Seq<char>)
    requires
        is_space(space),
    ensures
        fields_of(a + seq![space] + b) == fields_of(a) + fields_of(b),
        fields_of(Seq::<char>::empty()) == Seq::<Seq<char>>::empty(),
        a.len() > 0 && (forall|i: int| 0 <= i < a.len() ==> !is_space(#[trigger] a[i])) ==> fields_of(
            a,
        ) == seq![a],
    decreases b.len(), a.len(),
{
    let all = a + seq![space] + b;
    if b.len() == 0 {
        assert(all =~= a.push(space));
        assert(all.drop_last() =~= a);
        assert(fields_of(a) + fields_of(b) =~= fields_of(a));
    } else {
        let init = b.drop_last();
        lemma_fields(a, space, init);
        let before = a + seq![space] + init;
        assert(all.drop_last() =~= before);
        assert(all.last() == b.last());
        if !is_space(b.last()) {
            if b.len() > 1 {
                assert(all[all.len() - 2] == b[b.len() - 2]);
                if !is_space(b[b.len() - 2]) {
                    lemma_fields_nonempty(init);
                    assert(fields_of(before).last() == fields_of(init).last());
                }
            } else {
                assert(all[all.len() - 2] == space);
            }
        }
        assert(fields_of(all) =~= fields_of(a) + fields_of(b));
    }
    if a.len() > 0 && (forall|i: int| 0 <= i < a.len() ==> !is_space(#[trigger] a[i])) {
        lemma_one_field(a);
    }
}

proof fn lemma_fields_nonempty(s: Seq<char>)
    requires
        s.len() > 0,
        !is_space(s.last()),
    ensures
        fields_of(s).len() > 0,
{
    if s.len() > 1 && !is_space(s[s.len() - 2]) {
        assert(fields_of(s).len() > 0);
    }
}

proof fn lemma_one_field(s: Seq<char>)
    requires
        s.len() > 0,
        forall|i: int| 0 <= i < s.len() ==> !is_space(#[trigger] s[i]),
    ensures
        fields_of(s) == seq![s],
    decreases s.len(),
{
    let init = s.drop_last();
    assert(!is_space(s[s.len() - 1]));
    if s.len() == 1 {
        assert(fields_of(init) =~= Seq::<Seq<char>>::empty());
        assert(s =~= seq![s.last()]);
        assert(fields_of(s) =~= seq![s]);
    } else {
        assert forall|i: int| 0 <= i < init.len() implies !is_space(#[trigger] init[i]) by {
            assert(init[i] == s[i]);
        }
        lemma_one_field(init);
        assert(!is_space(s[s.len() - 2]));
        assert(init.push(s.last()) =~= s);
        assert(fields_of(s) =~= seq![s]);
    }
}

/// Putting texts together: nothing gives nothing, one text is itself, and one more stands behind
/// a separator.
pub proof fn lemma_joined(v: Seq<Seq<char>>, sep: Seq<char>, last: Seq<char>)
    ensures
        joined(Seq::<Seq<char>>::empty(), sep) == Seq::<char>::empty(),
        joined(seq![last], sep) == last,
        v.len() > 0 ==> joined(v.push(last), sep) == joined(v, sep) + sep + last,
{
    assert(v.push(last).drop_last() =~= v);
}

/// A numeral is read as the number that it was written for: it is made of digits, has no
/// leading zero and stands for its number.
pub proof fn lemma_numeral(n: nat)
    ensures
        numeral(n).len() > 0,
        all_digits(numeral(n)),
        digits_value(numeral(n)) == n,
        numeral(n)[0] == '0' ==> n == 0,
        n <= u64::MAX ==> number_in(numeral(n)) == Some(n as u64),
    decreases n,
{
    let s = numeral(n);
    let d = n % 10;
    assert(d < 10);
    assert(digit_char(d) as u32 == 48 + d);
    assert(is_digit(digit_char(d)));
    if n < 10 {
        assert(s.drop_last() =~= Seq::<char>::empty());
        assert(digits_value(s.drop_last()) == 0);
    } else {
        let init = numeral(n / 10);
        lemma_numeral(n / 10);
        assert(s.drop_last() =~= init);
        assert forall|i: int| 0 <= i < s.len() implies is_digit(#[trigger] s[i]) by {
            if i < init.len() {
                assert(s[i] == init[i]);
            }
        }
        assert(s[0] == init[0]);
        assert(n == (n / 10) * 10 + n % 10);
    }
    assert(is_digit(s[0]));
    assert(without_plus(s) == s);
}

/// Which number a text stands for: an optional plus sign, then digits, each worth ten times the
/// one behind it; and for none where there is anything else or too much.
pub proof fn lemma_number_in(s: Seq<char>, d: char)
    ensures
        number_in(Seq::empty()) is None,
        is_digit(d) ==> number_in(seq![d]) == Some((d as u32 - 48) as u64),
        !is_digit(d) ==> number_in(s.push(d)) is None,
        number_in(s) matches Some(n) ==> is_digit(d) ==> number_in(s.push(d)) == if n * 10 + (
        d as u32 - 48) <= u64::MAX {
            Some((n * 10 + (d as u32 - 48)) as u64)
        } else {
            None::<u64>
        },
        s.len() > 0 && s[0] != '+' ==> number_in(seq!['+'] + s) == number_in(s),
{
    let nothing = Seq::<char>::empty();
    let one = seq![d];
    assert(one.drop_last() =~= nothing);
    assert(digits_value(nothing) == 0);
    if is_digit(d) {
        assert(without_plus(one) == one);
        assert(digits_value(one) == d as u32 - 48);
    }
    let more = s.push(d);
    if !is_digit(d) && number_in(more) is Some {
        let ds = without_plus(more);
        assert(is_digit(ds[ds.len() - 1]));
    }
    if let Some(n) = number_in(s) {
        let ds = without_plus(s);
        assert(s.len() > 0);
        assert(without_plus(more) =~= ds.push(d));
        assert(ds.push(d).drop_last() =~= ds);
        if is_digit(d) {
            assert forall|i: int| 0 <= i < ds.push(d).len() implies is_digit(
                #[trigger] ds.push(d)[i],
            ) by {
                if i < ds.len() {
                    assert(is_digit(ds[i]));
                }
            }
        }
    }
    if s.len() > 0 && s[0] != '+' {
        assert((seq!['+'] + s).drop_first() =~= s);
    }
}

/// A negative number has a minus sign before its numeral.
pub proof fn lemma_signed_numeral(n: int)
    ensures
        n >= 0 ==> signed_numeral(n) == numeral(n as nat),
        n < 0 ==> signed_numeral(n) == seq!['-'] + signed_numeral(-n),
{
}

/// How many bytes a text takes: each ASCII character one, each further one two up to U+07FF,
/// three up to U+FFFF and else four.
pub proof fn lemma_bytes_of_a_text(s: Seq<char>, c: char)
    ensures
        byte_len(Seq::<char>::empty()) == 0,
        byte_len(s.push(c)) == byte_len(s) + (if c as u32 <= 0x7f {
            1nat
        } else if c as u32 <= 0x7ff {
            2nat
        } else if c as u32 <= 0xffff {
            3nat
        } else {
            4nat
        }),
{
    lemma_byte_len_push(s, c);
    lemma_byte_len_bound(Seq::<char>::empty());
}

/// What is left without leading white space is an end of the text, and starts with no white
/// space.
pub proof fn lemma_trimmed_start_is_an_end(s: Seq<char>)
    ensures
        trimmed_start(s).len() <= s.len(),
        s.skip(s.len() - trimmed_start(s).len()) == trimmed_start(s),
        trimmed_start(s).len() > 0 ==> !is_space(trimmed_start(s)[0]),
    decreases s.len(),
{
    if s.len() > 0 && is_space(s[0]) {
        let rest = s.drop_first();
        lemma_trimmed_start_is_an_end(rest);
        assert(s.skip(s.len() - trimmed_start(s).len()) =~= rest.skip(
            rest.len() - trimmed_start(s).len(),
        ));
    } else {
        assert(s.skip(0) =~= s);
    }
}

/// White space beyond ASCII.
pub proof fn lemma_other_spaces(c: char)
    requires
        c as u32 > 0x7f,
    ensures
        is_space(c) <==> {
            let v = c as u32;
            ||| v == 0x85 || v == 0xa0 || v == 0x1680 || v == 0x2028 || v == 0x2029
            ||| v == 0x202f || v == 0x205f || v == 0x3000
            ||| 0x2000 <= v && v <= 0x200a
        },
{
}

/// The digits are those of ASCII, and a text is made of digits where all of its characters are.
pub proof fn lemma_digits(s: Seq<char>, c: char)
    ensures
        is_digit(c) <==> 48 <= c as u32 <= 57,
        all_digits(Seq::empty()),
        all_digits(s.push(c)) <==> all_digits(s) && is_digit(c),
{
    let more = s.push(c);
    if all_digits(more) {
        assert(is_digit(more[s.len() as int]));
        assert forall|i: int| 0 <= i < s.len() implies is_digit(#[trigger] s[i]) by {
            assert(is_digit(more[i]));
        }
    }
}

/// A text that is no number does not become one by what follows it, unless nothing but a plus
/// sign, or nothing at all, stands before.
pub proof fn lemma_not_a_number(s: Seq<char>, d: char)
    requires
        s.len() > 0,
        s != seq!['+'],
        number_in(s) is None,
    ensures
        number_in(s.push(d)) is None,
{
    let ds = without_plus(s);
    let more = s.push(d);
    assert(without_plus(more) =~= ds.push(d));
    assert(ds.push(d).drop_last() =~= ds);
    if ds.len() == 0 {
        assert(s =~= seq!['+']);
    }
    lemma_digits(ds, d);
}

/// Lists of texts and of pairs, item by item.
pub proof fn lemma_lists_of_texts(v: Seq<String>, p: Seq<(String, String)>, i: int)
    ensures
        texts(v).len() == v.len(),
        0 <= i < v.len() ==> texts(v)[i] == v[i]@,
        pairs(p).len() == p.len(),
        0 <= i < p.len() ==> pairs(p)[i] == (p[i].0@, p[i].1@),
{
}

} // verus!

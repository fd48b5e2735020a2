//! File paths as text.
//!
//! A path is held as a string, with `/` between its components. The operations are those of
//! Unix paths: joining, resolving against a directory, and comparing component by component.

use vstd::prelude::*;

use crate::text::chars_of;
use crate::text::concat;
use crate::text::concat3;
use crate::text::lemma_parts_append;
use crate::text::lemma_parts_nonempty;
use crate::text::lemma_single_part;
use crate::text::parts;
use crate::text::same_text;
use crate::text::split;
use crate::text::texts;

verus! {

/// Whether the path starts at the root directory.
pub open spec fn absolute(p: Seq<char>) -> bool {
    p.len() > 0 && p[0] == '/'
}

/// `Path::is_absolute`.
pub fn is_absolute(p: &str) -> (r: bool)
    ensures
        r == absolute(p@),
{
    let v = chars_of(p);
    v.len() > 0 && v[0] == '/'
}

/// The path `rel` seen from the directory `base`: an absolute path stands for itself.
pub open spec fn joined_path(base: Seq<char>, rel: Seq<char>) -> Seq<char> {
    if absolute(rel) {
        rel
    } else if base.len() == 0 || base.last() == '/' {
        base + rel
    } else {
        base + "/"@ + rel
    }
}

/// `Path::join`.
pub fn join(base: &str, rel: &str) -> (r: String)
    ensures
        r@ == joined_path(base@, rel@),
{
    if is_absolute(rel) {
        return rel.to_owned();
    }
    let v = chars_of(base);
    if v.len() == 0 || v[v.len() - 1] == '/' {
        concat(base, rel)
    } else {
        concat3(base, "/", rel)
    }
}

/// Whether a part of a path names something: it is not empty and not the current directory.
pub open spec fn names_something(part: Seq<char>) -> bool {
    part.len() > 0 && part != "."@
}

/// The parts that name something.
pub open spec fn named(ps: Seq<Seq<char>>) -> Seq<Seq<char>>
    decreases ps.len(),
{
    if ps.len() == 0 {
        Seq::<Seq<char>>::empty()
    } else if names_something(ps.last()) {
        named(ps.drop_last()).push(ps.last())
    } else {
        named(ps.drop_last())
    }
}

/// The components of a path: `/` for the root directory, `.` for a relative path that
/// starts with the current directory, then the parts that name something.
pub open spec fn components(p: Seq<char>) -> Seq<Seq<char>> {
    let ps = parts(p, '/');
    if absolute(p) {
        seq!["/"@] + named(ps)
    } else if ps[0] == "."@ {
        seq!["."@] + named(ps)
    } else {
        named(ps)
    }
}

/// `Path::components`, each as text.
pub fn path_components(p: &str) -> (r: Vec<String>)
    ensures
        texts(r@) == components(p@),
{
    let ps = split(p, '/');
    proof {
        lemma_parts_nonempty(p@, '/');
    }
    let mut out: Vec<String> = Vec::new();
    let ghost mut head: Seq<Seq<char>> = Seq::empty();
    if is_absolute(p) {
        out.push("/".to_owned());
        proof {
            head = seq!["/"@];
        }
    } else if same_text(ps[0].as_str(), ".") {
        assert(texts(ps@)[0] == "."@);
        out.push(".".to_owned());
        proof {
            head = seq!["."@];
        }
    } else {
        assert(texts(ps@)[0] != "."@);
    }
    assert(texts(out@) =~= head);
    assert(head + named(texts(ps@)) =~= components(p@));
    let mut i: usize = 0;
    assert(head + named(texts(ps@).take(0)) =~= head);
    while i < ps.len()
        invariant
            i <= ps@.len(),
            texts(out@) == head + named(texts(ps@).take(i as int)),
        decreases ps@.len() - i,
    {
        let ghost before = texts(ps@).take(i as int);
        let ghost done = texts(out@);
        let part = ps[i].as_str();
        let named_part = !part.is_empty() && !same_text(part, ".");
        assert(texts(ps@).take(i + 1).drop_last() =~= before);
        assert(texts(ps@).take(i + 1).last() == part@);
        if named_part {
            out.push(ps[i].clone());
            assert(texts(out@) =~= done.push(part@));
            assert(head + named(before).push(part@) =~= (head + named(before)).push(part@));
        }
        i += 1;
    }
    assert(texts(ps@).take(ps@.len() as int) =~= texts(ps@));
    out
}

/// Whether the first components of `path` are those of `base`.
pub open spec fn lies_under(path: Seq<char>, base: Seq<char>) -> bool {
    let p = components(path);
    let b = components(base);
    b.len() <= p.len() && p.take(b.len() as int) == b
}

/// Whether the first strings of a list are those of another.
fn begins_with_components(p: &Vec<String>, b: &Vec<String>) -> (r: bool)
    ensures
        r == texts(b@).is_prefix_of(texts(p@)),
{
    if b.len() > p.len() {
        return false;
    }
    let mut i: usize = 0;
    while i < b.len()
        invariant
            i <= b@.len() <= p@.len(),
            forall|j: int| 0 <= j < i ==> texts(p@)[j] == texts(b@)[j],
        decreases b@.len() - i,
    {
        if !same_text(p[i].as_str(), b[i].as_str()) {
            assert(texts(p@)[i as int] != texts(b@)[i as int]);
            assert(texts(p@).subrange(0, b@.len() as int)[i as int] != texts(b@)[i as int]);
            return false;
        }
        assert(texts(p@)[i as int] == texts(b@)[i as int]);
        i += 1;
    }
    assert(texts(p@).subrange(0, b@.len() as int) =~= texts(b@));
    true
}

/// `Path::starts_with`.
pub fn is_under(path: &str, base: &str) -> (r: bool)
    ensures
        r == lies_under(path@, base@),
{
    let p = path_components(path);
    let b = path_components(base);
    proof {
        lemma_prefix(components(path@), components(base@));
    }
    begins_with_components(&p, &b)
}

/// Two ways to say that a list begins with another.
proof fn lemma_prefix(p: Seq<Seq<char>>, b: Seq<Seq<char>>)
    ensures
        b.is_prefix_of(p) == (b.len() <= p.len() && p.take(b.len() as int) == b),
{
    if b.len() <= p.len() {
        assert(p.take(b.len() as int) =~= p.subrange(0, b.len() as int));
    }
}

/// The parts that name something in two lists, one behind the other.
proof fn lemma_named_append(x: Seq<Seq<char>>, y: Seq<Seq<char>>)
    ensures
        named(x + y) == named(x) + named(y),
    decreases y.len(),
{
    if y.len() == 0 {
        assert(x + y =~= x);
    } else {
        assert((x + y).drop_last() =~= x + y.drop_last());
        lemma_named_append(x, y.drop_last());
        assert(named(x + y) =~= named(x) + named(y));
    }
}

/// The empty text names nothing.
proof fn lemma_nothing_named()
    ensures
        named(parts(Seq::<char>::empty(), '/')) == Seq::<Seq<char>>::empty(),
{
    reveal_with_fuel(named, 2);
    assert(parts(Seq::<char>::empty(), '/').drop_last() =~= Seq::<Seq<char>>::empty());
}

/// A relative path, seen from a directory, has the directory's components first and its own
/// behind them.
proof fn lemma_joined_components(base: Seq<char>, rel: Seq<char>)
    requires
        base.len() > 0,
        !absolute(rel),
    ensures
        components(joined_path(base, rel)) == components(base) + named(parts(rel, '/')),
{
    reveal_strlit("/");
    reveal_strlit(".");
    let whole = joined_path(base, rel);
    let tail = named(parts(rel, '/'));
    lemma_parts_nonempty(base, '/');
    if base.last() == '/' {
        let b = base.drop_last();
        let nothing = Seq::<char>::empty();
        lemma_parts_nonempty(b, '/');
        assert(whole =~= b + seq!['/'] + rel);
        assert(base =~= b + seq!['/'] + nothing);
        lemma_parts_append(b, rel, '/');
        lemma_parts_append(b, nothing, '/');
        lemma_named_append(parts(b, '/'), parts(rel, '/'));
        lemma_named_append(parts(b, '/'), parts(nothing, '/'));
        lemma_nothing_named();
        assert(named(parts(base, '/')) =~= named(parts(b, '/')));
    } else {
        assert(whole =~= base + seq!['/'] + rel);
        lemma_parts_append(base, rel, '/');
        lemma_named_append(parts(base, '/'), parts(rel, '/'));
    }
    assert(parts(whole, '/')[0] == parts(base, '/')[0]);
    assert(absolute(whole) == absolute(base));
    assert(components(whole) =~= components(base) + tail);
}

/// An absolute path stands for itself wherever it is seen from. A relative path starts at the
/// directory that it is seen from: the directory's components come first. (A `..` in it is a
/// component like any other.)
pub proof fn lemma_paths_start_at_the_directory(base: Seq<char>, rel: Seq<char>)
    ensures
        absolute(rel) ==> joined_path(base, rel) == rel,
        !absolute(rel) ==> lies_under(joined_path(base, rel), base),
{
    if !absolute(rel) {
        let whole = components(joined_path(base, rel));
        if base.len() == 0 {
            reveal_strlit(".");
            lemma_nothing_named();
            assert(base =~= Seq::<char>::empty());
            assert(components(base) =~= Seq::<Seq<char>>::empty());
            assert(whole.take(0) =~= components(base));
        } else {
            lemma_joined_components(base, rel);
            assert(whole.take(components(base).len() as int) =~= components(base));
        }
    }
}

// ---------------------------------------------------------------------------------------
// Going up

/// The components with one more at their end: `..` takes away the one before it. At the root
/// directory it leads nowhere, and where there is nothing to take away it stays.
pub open spec fn gone_on(cs: Seq<Seq<char>>, next: Seq<char>) -> Seq<Seq<char>> {
    if next != ".."@ {
        cs.push(next)
    } else if cs.len() == 0 || cs.last() == ".."@ {
        cs.push(next)
    } else if cs.last() == "/"@ {
        cs
    } else if cs.last() == "."@ {
        cs.drop_last().push(next)
    } else {
        cs.drop_last()
    }
}

/// The components with each `..` taking away the one before it.
pub open spec fn folded_list(cs: Seq<Seq<char>>) -> Seq<Seq<char>>
    decreases cs.len(),
{
    if cs.len() == 0 {
        Seq::<Seq<char>>::empty()
    } else {
        gone_on(folded_list(cs.drop_last()), cs.last())
    }
}

/// The components of a path with each `..` taking away the one before it.
pub open spec fn folded(path: Seq<char>) -> Seq<Seq<char>> {
    folded_list(components(path))
}

/// Whether the path, once `..` is taken into account, lies under the base.
pub open spec fn leads_under(path: Seq<char>, base: Seq<char>) -> bool {
    folded(base).is_prefix_of(folded(path))
}

/// The components of a path with each `..` taking away the one before it.
pub fn folded_components(path: &str) -> (r: Vec<String>)
    ensures
        texts(r@) == folded(path@),
{
    let cs = path_components(path);
    let mut out: Vec<String> = Vec::new();
    let mut i: usize = 0;
    assert(texts(out@) =~= folded_list(texts(cs@).take(0)));
    while i < cs.len()
        invariant
            i <= cs@.len(),
            texts(out@) == folded_list(texts(cs@).take(i as int)),
        decreases cs@.len() - i,
    {
        let ghost before = texts(out@);
        let next = cs[i].as_str();
        let n: usize = out.len();
        assert(texts(cs@).take(i + 1).drop_last() =~= texts(cs@).take(i as int));
        assert(texts(cs@).take(i + 1).last() == next@);
        assert(n > 0 ==> before.last() == out@[n - 1]@);
        if !same_text(next, "..") || n == 0 || same_text(out[n - 1].as_str(), "..") {
            out.push(cs[i].clone());
            assert(texts(out@) =~= before.push(next@));
        } else if same_text(out[n - 1].as_str(), "/") {
        } else if same_text(out[n - 1].as_str(), ".") {
            out.pop();
            assert(texts(out@) =~= before.drop_last());
            out.push(cs[i].clone());
            assert(texts(out@) =~= before.drop_last().push(next@));
        } else {
            out.pop();
            assert(texts(out@) =~= before.drop_last());
        }
        i += 1;
    }
    assert(texts(cs@).take(cs@.len() as int) =~= texts(cs@));
    out
}

/// Whether the path, once `..` is taken into account, lies under the base.
pub fn goes_under(path: &str, base: &str) -> (r: bool)
    ensures
        r == leads_under(path@, base@),
{
    let p = folded_components(path);
    let b = folded_components(base);
    begins_with_components(&p, &b)
}

// ---------------------------------------------------------------------------------------
// Sets of paths

/// Whether `a` comes before `b` in the order of their characters.
pub open spec fn text_before(a: Seq<char>, b: Seq<char>) -> bool
    decreases a.len(),
{
    if b.len() == 0 {
        false
    } else if a.len() == 0 {
        true
    } else if a[0] != b[0] {
        a[0] < b[0]
    } else {
        text_before(a.drop_first(), b.drop_first())
    }
}

/// Whether `a` comes before `b` when they are compared component by component.
pub open spec fn list_before(a: Seq<Seq<char>>, b: Seq<Seq<char>>) -> bool
    decreases a.len(),
{
    if b.len() == 0 {
        false
    } else if a.len() == 0 {
        true
    } else if a[0] != b[0] {
        text_before(a[0], b[0])
    } else {
        list_before(a.drop_first(), b.drop_first())
    }
}

/// Whether the path `a` comes before the path `b`.
pub open spec fn path_before(a: Seq<char>, b: Seq<char>) -> bool {
    list_before(components(a), components(b))
}

/// The sorted set with one path more. A path with the same components is kept as it is.
pub open spec fn with_path(set: Seq<Seq<char>>, p: Seq<char>) -> Seq<Seq<char>>
    decreases set.len(),
{
    if set.len() == 0 {
        seq![p]
    } else if path_before(set.last(), p) {
        set.push(p)
    } else if components(set.last()) == components(p) {
        set
    } else {
        with_path(set.drop_last(), p).push(set.last())
    }
}

/// The sorted set of the paths in a list.
pub open spec fn path_set(ps: Seq<Seq<char>>) -> Seq<Seq<char>>
    decreases ps.len(),
{
    if ps.len() == 0 {
        Seq::<Seq<char>>::empty()
    } else {
        with_path(path_set(ps.drop_last()), ps.last())
    }
}

/// Whether every path comes before the ones behind it.
pub open spec fn sorted_paths(set: Seq<Seq<char>>) -> bool {
    forall|i: int, j: int|
        0 <= i < j < set.len() ==> path_before(#[trigger] set[i], #[trigger] set[j])
}

/// Compares two texts by their characters.
pub fn is_before(x: &str, y: &str) -> (r: bool)
    ensures
        r == text_before(x@, y@),
{
    let a = chars_of(x);
    let b = chars_of(y);
    let mut i: usize = 0;
    assert(a@.skip(0) =~= a@ && b@.skip(0) =~= b@);
    while i < a.len() && i < b.len()
        invariant
            i <= a@.len(),
            i <= b@.len(),
            a@ == x@,
            b@ == y@,
            text_before(x@, y@) == text_before(a@.skip(i as int), b@.skip(i as int)),
        decreases a@.len() - i,
    {
        if a[i] != b[i] {
            return a[i] < b[i];
        }
        assert(a@.skip(i as int).drop_first() =~= a@.skip(i + 1));
        assert(b@.skip(i as int).drop_first() =~= b@.skip(i + 1));
        i += 1;
    }
    i < b.len()
}

/// Compares two lists of components.
fn components_before(a: &Vec<String>, b: &Vec<String>) -> (r: bool)
    ensures
        r == list_before(texts(a@), texts(b@)),
{
    let ghost ta = texts(a@);
    let ghost tb = texts(b@);
    let mut i: usize = 0;
    assert(ta.skip(0) =~= ta && tb.skip(0) =~= tb);
    while i < a.len() && i < b.len()
        invariant
            ta == texts(a@),
            tb == texts(b@),
            i <= a@.len(),
            i <= b@.len(),
            list_before(ta, tb) == list_before(ta.skip(i as int), tb.skip(i as int)),
        decreases a@.len() - i,
    {
        let x = a[i].as_str();
        let y = b[i].as_str();
        assert(ta.skip(i as int)[0] == x@ && tb.skip(i as int)[0] == y@);
        if !same_text(x, y) {
            return is_before(x, y);
        }
        assert(ta.skip(i as int).drop_first() =~= ta.skip(i + 1));
        assert(tb.skip(i as int).drop_first() =~= tb.skip(i + 1));
        i += 1;
    }
    i < b.len()
}

/// Whether two lists of strings hold the same texts.
pub fn same_components(a: &Vec<String>, b: &Vec<String>) -> (r: bool)
    ensures
        r == (texts(a@) == texts(b@)),
{
    if a.len() != b.len() {
        assert(texts(a@).len() != texts(b@).len());
        return false;
    }
    let mut i: usize = 0;
    while i < a.len()
        invariant
            i <= a@.len() == b@.len(),
            forall|j: int| 0 <= j < i ==> texts(a@)[j] == texts(b@)[j],
        decreases a@.len() - i,
    {
        if !same_text(a[i].as_str(), b[i].as_str()) {
            assert(texts(a@)[i as int] != texts(b@)[i as int]);
            return false;
        }
        assert(texts(a@)[i as int] == texts(b@)[i as int]);
        i += 1;
    }
    assert(texts(a@) =~= texts(b@));
    true
}

/// Adds a path to a sorted set.
pub fn insert_path(set: &mut Vec<String>, p: String)
    ensures
        texts(final(set)@) == with_path(texts(old(set)@), p@),
{
    let ghost all = texts(set@);
    let c = path_components(p.as_str());
    let mut i: usize = set.len();
    assert(all.take(i as int) =~= all && all.skip(i as int) =~= Seq::empty());
    assert(with_path(all, p@) =~= with_path(all.take(i as int), p@) + all.skip(i as int));
    while i > 0
        invariant
            i <= set@.len(),
            texts(set@) == all,
            texts(c@) == components(p@),
            with_path(all, p@) == with_path(all.take(i as int), p@) + all.skip(i as int),
            set@ == old(set)@,
        decreases i,
    {
        let o = path_components(set[i - 1].as_str());
        let ghost head = all.take(i as int);
        assert(head.last() == set@[i - 1]@);
        if components_before(&o, &c) {
            assert(with_path(head, p@) == head.push(p@));
            let ghost shown = p@;
            set.insert(i, p);
            assert(texts(set@) =~= head.push(shown) + all.skip(i as int));
            return;
        }
        if same_components(&o, &c) {
            assert(head + all.skip(i as int) =~= all);
            return;
        }
        assert(head.drop_last() =~= all.take(i - 1));
        assert(with_path(all.take(i - 1), p@).push(all[i - 1]) + all.skip(i as int) =~= with_path(
            all.take(i - 1),
            p@,
        ) + all.skip(i - 1));
        i -= 1;
    }
    let ghost shown = p@;
    set.insert(0, p);
    assert(all.take(0) =~= Seq::empty());
    assert(texts(set@) =~= seq![shown] + all.skip(0));
}

// ---------------------------------------------------------------------------------------
// The order of paths

/// The order of texts is irreflexive, total and transitive.
proof fn lemma_text_order(a: Seq<char>, b: Seq<char>, c: Seq<char>)
    ensures
        !text_before(a, a),
        a == b || text_before(a, b) || text_before(b, a),
        text_before(a, b) && text_before(b, c) ==> text_before(a, c),
    decreases a.len(),
{
    if a.len() > 0 {
        lemma_text_order(a.drop_first(), a.drop_first(), a.drop_first());
        if b.len() > 0 && c.len() > 0 {
            lemma_text_order(a.drop_first(), b.drop_first(), c.drop_first());
        }
        if b.len() > 0 && a[0] == b[0] {
            lemma_text_order(a.drop_first(), b.drop_first(), Seq::empty());
            if a.drop_first() == b.drop_first() {
                assert(a =~= seq![a[0]] + a.drop_first());
                assert(b =~= seq![b[0]] + b.drop_first());
            }
        }
    } else if b.len() == 0 {
        assert(a =~= b);
    }
}

/// The order of lists of components is irreflexive, total and transitive.
proof fn lemma_list_order(a: Seq<Seq<char>>, b: Seq<Seq<char>>, c: Seq<Seq<char>>)
    ensures
        !list_before(a, a),
        a == b || list_before(a, b) || list_before(b, a),
        list_before(a, b) && list_before(b, c) ==> list_before(a, c),
    decreases a.len(),
{
    if a.len() > 0 {
        lemma_list_order(a.drop_first(), a.drop_first(), a.drop_first());
        if b.len() > 0 && c.len() > 0 {
            lemma_list_order(a.drop_first(), b.drop_first(), c.drop_first());
            lemma_text_order(a[0], b[0], c[0]);
            lemma_text_order(b[0], a[0], c[0]);
        }
        if b.len() > 0 {
            lemma_text_order(a[0], b[0], a[0]);
            if a[0] == b[0] {
                lemma_list_order(a.drop_first(), b.drop_first(), Seq::empty());
                if a.drop_first() == b.drop_first() {
                    assert(a =~= seq![a[0]] + a.drop_first());
                    assert(b =~= seq![b[0]] + b.drop_first());
                }
            }
        }
    } else if b.len() == 0 {
        assert(a =~= b);
    }
}

/// Adding a path keeps a set sorted, and adds the path and nothing else.
pub proof fn lemma_with_path(set: Seq<Seq<char>>, p: Seq<char>)
    requires
        sorted_paths(set),
    ensures
        sorted_paths(with_path(set, p)),
        forall|q: Seq<char>| #[trigger]
            with_path(set, p).contains(q) ==> q == p || set.contains(q),
        forall|q: Seq<char>| set.contains(q) ==> #[trigger] with_path(set, p).contains(q),
        exists|q: Seq<char>| #[trigger]
            with_path(set, p).contains(q) && components(q) == components(p),
    decreases set.len(),
{
    let r = with_path(set, p);
    if set.len() == 0 {
        assert(r[0] == p);
        assert(r.contains(p));
    } else if path_before(set.last(), p) {
        assert(r[set.len() as int] == p);
        assert(r.contains(p));
        assert forall|i: int, j: int| 0 <= i < j < r.len() implies path_before(
            #[trigger] r[i],
            #[trigger] r[j],
        ) by {
            if j == set.len() && i < set.len() - 1 {
                assert(path_before(set[i], set[set.len() - 1]));
                lemma_list_order(components(set[i]), components(set.last()), components(p));
            }
        }
        assert forall|q: Seq<char>| set.contains(q) implies #[trigger] r.contains(q) by {
            let k = choose|k: int| 0 <= k < set.len() && set[k] == q;
            assert(r[k] == q);
        }
    } else if components(set.last()) == components(p) {
        assert(r[set.len() - 1] == set.last());
        assert(r.contains(set.last()));
    } else {
        let init = set.drop_last();
        let inner = with_path(init, p);
        lemma_with_path(init, p);
        lemma_list_order(components(set.last()), components(p), components(p));
        assert forall|i: int, j: int| 0 <= i < j < r.len() implies path_before(
            #[trigger] r[i],
            #[trigger] r[j],
        ) by {
            if j == inner.len() {
                assert(inner.contains(inner[i]));
                if inner[i] != p {
                    let k = choose|k: int| 0 <= k < init.len() && init[k] == inner[i];
                    assert(path_before(set[k], set[set.len() - 1]));
                }
            }
        }
        assert forall|q: Seq<char>| #[trigger] r.contains(q) implies q == p || set.contains(q) by {
            let k = choose|k: int| 0 <= k < r.len() && r[k] == q;
            if k < inner.len() {
                assert(inner.contains(q));
                if q != p {
                    let l = choose|l: int| 0 <= l < init.len() && init[l] == q;
                    assert(set[l] == q);
                }
            } else {
                assert(set[set.len() - 1] == q);
            }
        }
        assert forall|q: Seq<char>| set.contains(q) implies #[trigger] r.contains(q) by {
            let k = choose|k: int| 0 <= k < set.len() && set[k] == q;
            if k < init.len() {
                assert(init[k] == q);
                assert(inner.contains(q));
                let l = choose|l: int| 0 <= l < inner.len() && inner[l] == q;
                assert(r[l] == q);
            } else {
                assert(r[inner.len() as int] == q);
            }
        }
        let w = choose|q: Seq<char>| #[trigger]
            inner.contains(q) && components(q) == components(p);
        let l = choose|l: int| 0 <= l < inner.len() && inner[l] == w;
        assert(r[l] == w);
        assert(r.contains(w));
    }
}

/// The set of the paths in a list is sorted, holds only paths of the list, and holds each of
/// them up to how its components are written.
pub proof fn lemma_path_set(ps: Seq<Seq<char>>)
    ensures
        sorted_paths(path_set(ps)),
        forall|q: Seq<char>| #[trigger] path_set(ps).contains(q) ==> ps.contains(q),
        forall|i: int| #![trigger ps[i]]
            0 <= i < ps.len() ==> exists|q: Seq<char>| #[trigger]
                path_set(ps).contains(q) && components(q) == components(ps[i]),
    decreases ps.len(),
{
    if ps.len() > 0 {
        let init = ps.drop_last();
        lemma_path_set(init);
        lemma_with_path(path_set(init), ps.last());
        assert forall|q: Seq<char>| #[trigger] path_set(ps).contains(q) implies ps.contains(q) by {
            if q != ps.last() {
                assert(path_set(init).contains(q));
                let k = choose|k: int| 0 <= k < init.len() && init[k] == q;
                assert(ps[k] == q);
            } else {
                assert(ps[ps.len() - 1] == q);
            }
        }
        assert forall|i: int| #![trigger ps[i]] 0 <= i < ps.len() implies exists|q: Seq<char>|
            #[trigger] path_set(ps).contains(q) && components(q) == components(ps[i]) by {
            if i < init.len() {
                assert(init[i] == ps[i]);
                let q = choose|q: Seq<char>| #[trigger]
                    path_set(init).contains(q) && components(q) == components(init[i]);
                assert(path_set(ps).contains(q));
            }
        }
    }
}

// ---------------------------------------------------------------------------------------
// Paths step by step

/// How two paths are joined: an absolute one stands for itself, and any other one is written
/// behind the first, with one slash between the two unless there is one already or nothing
/// stands before it.
pub proof fn lemma_joined_path(base: Seq<char>, rel: Seq<char>)
    ensures
        rel.len() > 0 && rel[0] == '/' ==> joined_path(base, rel) == rel,
        rel.len() == 0 || rel[0] != '/' ==> {
            &&& base.len() == 0 ==> joined_path(base, rel) == rel
            &&& base.len() > 0 && base.last() == '/' ==> joined_path(base, rel) == base + rel
            &&& base.len() > 0 && base.last() != '/' ==> joined_path(base, rel) == base + seq!['/']
                + rel
        },
{
    reveal_strlit("/");
    assert("/"@ =~= seq!['/']);
    if base.len() == 0 {
        assert(base + rel =~= rel);
    }
}

/// The components of a path, one step at a time. What stands between two slashes is a component,
/// unless nothing stands there or a single dot. A slash at the start is a component of its own,
/// and so is a single dot at the start.
pub proof fn lemma_components(base: Seq<char>, part: Seq<char>)
    requires
        !part.contains('/'),
    ensures
        ({
            let own = if part.len() == 0 || part == seq!['.'] {
                Seq::<Seq<char>>::empty()
            } else {
                seq![part]
            };
            &&& components(seq!['/'] + part) == seq![seq!['/']] + own
            &&& base.len() > 0 ==> components(base + seq!['/'] + part) == components(base) + own
            &&& part.len() == 0 ==> components(part) == own
            &&& part.len() > 0 ==> components(part) == seq![part]
        }),
{
    reveal_strlit("/");
    reveal_strlit(".");
    assert("/"@ =~= seq!['/']);
    assert("."@ =~= seq!['.']);
    lemma_single_part(part, '/');
    assert(parts(part, '/') =~= seq![part]);
    reveal_with_fuel(named, 2);
    assert(seq![part].drop_last() =~= Seq::<Seq<char>>::empty());
    let own = named(parts(part, '/'));
    assert(own =~= if part.len() == 0 || part == seq!['.'] {
        Seq::<Seq<char>>::empty()
    } else {
        seq![part]
    });
    let nothing = Seq::<char>::empty();
    lemma_parts_append(nothing, part, '/');
    assert(nothing + seq!['/'] + part =~= seq!['/'] + part);
    lemma_named_append(parts(nothing, '/'), parts(part, '/'));
    lemma_nothing_named();
    assert(named(parts(seq!['/'] + part, '/')) =~= own);
    assert(components(seq!['/'] + part) =~= seq![seq!['/']] + own);
    if part.len() > 0 {
        assert(part[0] != '/') by {
            assert(part.contains(part[0]));
        }
        assert(components(part) =~= seq![part]);
    } else {
        assert(components(part) =~= own);
    }
    if base.len() > 0 {
        let whole = base + seq!['/'] + part;
        lemma_parts_nonempty(base, '/');
        lemma_parts_append(base, part, '/');
        lemma_named_append(parts(base, '/'), parts(part, '/'));
        assert(whole[0] == base[0]);
        assert(parts(whole, '/')[0] == parts(base, '/')[0]);
        assert(components(whole) =~= components(base) + own);
    }
}

/// When a path lies under another: its components begin with the other's, one for one.
pub proof fn lemma_lies_under(path: Seq<char>, base: Seq<char>, rest: Seq<Seq<char>>)
    ensures
        components(path) == components(base) + rest ==> lies_under(path, base),
        lies_under(path, base) ==> exists|more: Seq<Seq<char>>|
            components(path) == #[trigger] (components(base) + more),
        lies_under(path, path),
{
    let p = components(path);
    let b = components(base);
    if p == b + rest {
        assert(p.take(b.len() as int) =~= b);
    }
    if lies_under(path, base) {
        assert(p =~= b + p.skip(b.len() as int));
    }
    assert(p.take(p.len() as int) =~= p);
}

/// A name behind a path is gone into, and `..` behind it leads back out of it.
pub proof fn lemma_going_in_and_out(base: Seq<char>, name: Seq<char>)
    requires
        base.len() > 0,
        name.len() > 0,
        !name.contains('/'),
        name != seq!['.'],
        name != seq!['.', '.'],
    ensures
        folded(base + seq!['/'] + name) == folded(base).push(name),
        folded(base + seq!['/'] + name + seq!['/', '.', '.']) == folded(base),
{
    reveal_strlit("..");
    reveal_strlit("/");
    reveal_strlit(".");
    assert(".."@ =~= seq!['.', '.']);
    let inside = base + seq!['/'] + name;
    lemma_folded_behind(base, name);
    assert(name != "/"@) by {
        assert("/"@[0] == '/');
        assert(name.contains(name[0]));
    }
    assert("."@ =~= seq!['.']);
    lemma_folded_behind(inside, seq!['.', '.']);
    assert(inside + seq!['/', '.', '.'] =~= inside + seq!['/'] + seq!['.', '.']);
    assert(folded(base).push(name).drop_last() =~= folded(base));
}

/// Going up where there is nothing to leave: at the root directory `..` leads nowhere. Where the
/// path goes up already, or is empty, it goes up once more, and from the directory itself it goes
/// up too.
pub proof fn lemma_going_up(base: Seq<char>)
    requires
        base.len() > 0,
    ensures
        ({
            let up = folded(base + seq!['/', '.', '.']);
            let now = folded(base);
            &&& now.len() == 0 ==> up == seq![seq!['.', '.']]
            &&& now.len() > 0 && now.last() == seq!['/'] ==> up == now
            &&& now.len() > 0 && now.last() == seq!['.', '.'] ==> up == now.push(seq!['.', '.'])
            &&& now.len() > 0 && now.last() == seq!['.'] ==> up == now.drop_last().push(
                seq!['.', '.'],
            )
        }),
        folded(seq!['/']) == seq![seq!['/']],
        folded(seq!['.', '.']) == seq![seq!['.', '.']],
        folded(seq!['.']) == seq![seq!['.']],
        folded(Seq::empty()) == Seq::<Seq<char>>::empty(),
{
    reveal_strlit("..");
    reveal_strlit("/");
    reveal_strlit(".");
    assert(".."@ =~= seq!['.', '.']);
    assert("/"@ =~= seq!['/']);
    assert("."@ =~= seq!['.']);
    lemma_folded_behind(base, seq!['.', '.']);
    assert(base + seq!['/', '.', '.'] =~= base + seq!['/'] + seq!['.', '.']);
    assert(seq!['/'].len() == 1 && seq!['.', '.'].len() == 2);
    assert(seq!['/'][0] != seq!['.'][0]);
    let nothing = Seq::<char>::empty();
    reveal_with_fuel(folded_list, 2);
    lemma_components(base, nothing);
    lemma_components(base, seq!['.', '.']);
    lemma_components(base, seq!['.']);
    assert(seq!['/'] + nothing =~= seq!['/']);
    assert(seq![seq!['/']] + Seq::<Seq<char>>::empty() =~= seq![seq!['/']]);
    assert(seq![seq!['/']].drop_last() =~= Seq::<Seq<char>>::empty());
    assert(seq![seq!['.', '.']].drop_last() =~= Seq::<Seq<char>>::empty());
    assert(seq![seq!['.']].drop_last() =~= Seq::<Seq<char>>::empty());
    assert(Seq::<Seq<char>>::empty().push(seq!['/']) =~= seq![seq!['/']]);
    assert(Seq::<Seq<char>>::empty().push(seq!['.']) =~= seq![seq!['.']]);
    assert(Seq::<Seq<char>>::empty().push(seq!['.', '.']) =~= seq![seq!['.', '.']]);
}

/// One more component behind a path.
proof fn lemma_folded_behind(base: Seq<char>, part: Seq<char>)
    requires
        base.len() > 0,
        part.len() > 0,
        !part.contains('/'),
        part != seq!['.'],
    ensures
        folded(base + seq!['/'] + part) == gone_on(folded(base), part),
{
    lemma_components(base, part);
    let c = components(base);
    assert(c + seq![part] =~= c.push(part));
    assert(c.push(part).drop_last() =~= c);
}

/// When a path leads under another: with all `..` taken into account, its components begin with
/// the other's, one for one.
pub proof fn lemma_leads_under(path: Seq<char>, base: Seq<char>, rest: Seq<Seq<char>>)
    ensures
        folded(path) == folded(base) + rest ==> leads_under(path, base),
        leads_under(path, base) ==> exists|more: Seq<Seq<char>>|
            folded(path) == #[trigger] (folded(base) + more),
{
    let p = folded(path);
    let b = folded(base);
    lemma_prefix(p, b);
    if p == b + rest {
        assert(p.take(b.len() as int) =~= b);
    }
    if leads_under(path, base) {
        assert(p =~= b + p.skip(b.len() as int));
    }
}

/// The order of texts: the first character in which two of them differ decides, and where there
/// is none the shorter one comes first.
pub proof fn lemma_order_of_texts(same: Seq<char>, a: Seq<char>, b: Seq<char>, c: char, d: char)
    ensures
        c < d ==> text_before(same + seq![c] + a, same + seq![d] + b),
        d < c ==> !text_before(same + seq![c] + a, same + seq![d] + b),
        text_before(same, same + seq![c] + a),
        !text_before(same + seq![c] + a, same),
        !text_before(same, same),
    decreases same.len(),
{
    lemma_text_order(same, same, same);
    let x = same + seq![c] + a;
    let y = same + seq![d] + b;
    if same.len() > 0 {
        let s = same.drop_first();
        lemma_order_of_texts(s, a, b, c, d);
        assert(x.drop_first() =~= s + seq![c] + a);
        assert(y.drop_first() =~= s + seq![d] + b);
        assert(x[0] == same[0] && y[0] == same[0]);
    } else {
        assert(x[0] == c && y[0] == d);
    }
}

/// The order of paths: the first component in which two of them differ decides, and where there
/// is none the one with fewer components comes first.
pub proof fn lemma_order_of_paths(
    p: Seq<char>,
    q: Seq<char>,
    same: Seq<Seq<char>>,
    a: Seq<Seq<char>>,
    b: Seq<Seq<char>>,
    c: Seq<char>,
    d: Seq<char>,
)
    requires
        components(p) == same + seq![c] + a,
    ensures
        components(q) == same + seq![d] + b && text_before(c, d) ==> path_before(p, q),
        components(q) == same + seq![d] + b && text_before(d, c) ==> !path_before(p, q),
        components(q) == same ==> path_before(q, p) && !path_before(p, q),
        !path_before(p, p),
{
    lemma_list_order(components(p), components(p), components(p));
    lemma_order_of_lists(same, a, b, c, d);
}

proof fn lemma_order_of_lists(
    same: Seq<Seq<char>>,
    a: Seq<Seq<char>>,
    b: Seq<Seq<char>>,
    c: Seq<char>,
    d: Seq<char>,
)
    ensures
        text_before(c, d) ==> list_before(same + seq![c] + a, same + seq![d] + b),
        text_before(d, c) ==> !list_before(same + seq![c] + a, same + seq![d] + b),
        list_before(same, same + seq![c] + a),
        !list_before(same + seq![c] + a, same),
    decreases same.len(),
{
    lemma_text_order(c, d, c);
    lemma_text_order(d, c, d);
    let x = same + seq![c] + a;
    let y = same + seq![d] + b;
    if same.len() > 0 {
        let s = same.drop_first();
        lemma_order_of_lists(s, a, b, c, d);
        assert(x.drop_first() =~= s + seq![c] + a);
        assert(y.drop_first() =~= s + seq![d] + b);
        assert(x[0] == same[0] && y[0] == same[0]);
    } else {
        assert(x[0] == c && y[0] == d);
    }
}

/// A set of paths stands in the order of paths, each path before all behind it. Every path of the
/// list is in it, as it was written first.
pub proof fn lemma_set_of_paths(ps: Seq<Seq<char>>, i: int, j: int)
    ensures
        0 <= i < j < path_set(ps).len() ==> list_before(
            components(path_set(ps)[i]),
            components(path_set(ps)[j]),
        ),
        0 <= i < path_set(ps).len() ==> ps.contains(path_set(ps)[i]),
        0 <= i < ps.len() && (forall|k: int|
            0 <= k < i ==> components(#[trigger] ps[k]) != components(ps[i])) ==> path_set(
            ps,
        ).contains(ps[i]),
{
    lemma_path_set(ps);
    if 0 <= i < j < path_set(ps).len() {
        assert(path_before(path_set(ps)[i], path_set(ps)[j]));
    }
    if 0 <= i < path_set(ps).len() {
        assert(path_set(ps).contains(path_set(ps)[i]));
    }
    if 0 <= i < ps.len() && (forall|k: int|
        0 <= k < i ==> components(#[trigger] ps[k]) != components(ps[i])) {
        lemma_first_written_is_kept(ps, i);
    }
}

proof fn lemma_first_written_is_kept(ps: Seq<Seq<char>>, i: int)
    requires
        0 <= i < ps.len(),
        forall|k: int| 0 <= k < i ==> components(#[trigger] ps[k]) != components(ps[i]),
    ensures
        path_set(ps).contains(ps[i]),
    decreases ps.len(),
{
    let init = ps.drop_last();
    let before = path_set(init);
    lemma_path_set(init);
    lemma_with_path(before, ps.last());
    assert(path_set(ps) == with_path(before, ps.last()));
    if i < init.len() {
        assert(init[i] == ps[i]);
        assert forall|k: int| 0 <= k < i implies components(#[trigger] init[k]) != components(
            init[i],
        ) by {
            assert(init[k] == ps[k]);
        }
        lemma_first_written_is_kept(init, i);
        assert(before.contains(ps[i]));
        assert(with_path(before, ps.last()).contains(ps[i]));
    } else {
        let q = choose|q: Seq<char>| #[trigger]
            with_path(before, ps.last()).contains(q) && components(q) == components(ps.last());
        assert(with_path(before, ps.last()).contains(q));
        if q != ps.last() {
            assert(before.contains(q));
            assert(init.contains(q));
            let k = choose|k: int| 0 <= k < init.len() && init[k] == q;
            assert(ps[k] == q);
        }
    }
}

} // verus!

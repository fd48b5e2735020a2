//! The end of a command's log, small enough to show.

use vstd::prelude::*;
use vstd::utf8::decode_utf8;
use vstd::utf8::valid_utf8;

use crate::outside::decode_lossy;
use crate::outside::lossy_text;
use crate::text::byte_len;
use crate::text::char_bytes;
use crate::text::char_width;
use crate::text::chars_of;
use crate::text::find_char;
use crate::text::join_from;
use crate::text::joined;
use crate::text::lemma_byte_len_bound;
use crate::text::lemma_joined_parts;
use crate::text::lemma_joined_split;
use crate::text::lemma_parts_chars;
use crate::text::lemma_parts_nonempty;
use crate::text::lines;
use crate::text::lines_of;
use crate::text::parts;
use crate::text::slice_text;
use crate::text::text_bytes;
use crate::text::texts;
use crate::text::without_return;

verus! {

/// The most bytes of output that a tool shows.
pub const MAX_OUTPUT_BYTES: usize = 51_200;

/// The most lines of output that a tool shows.
pub const MAX_OUTPUT_LINES: usize = 2000;

/// The most bytes that are read from the end of a log.
pub const MAX_TAIL_READ_BYTES: u64 = 131_072;

/// Where to start reading in a log of the given length.
pub fn tail_start(len: u64) -> (r: u64)
    ensures
        r == if len > MAX_TAIL_READ_BYTES {
            len - MAX_TAIL_READ_BYTES
        } else {
            0
        },
        len - r <= MAX_TAIL_READ_BYTES,
{
    len.saturating_sub(MAX_TAIL_READ_BYTES)
}

/// What follows the first line feed, or everything where there is none.
pub open spec fn after_first_line(s: Seq<char>) -> Seq<char>
    decreases s.len(),
{
    if s.contains('\n') {
        if s[0] == '\n' {
            s.drop_first()
        } else {
            after_first_line(s.drop_first())
        }
    } else {
        s
    }
}

/// The last lines, as many as are shown.
pub open spec fn last_lines(s: Seq<char>) -> Seq<char> {
    let all = lines_of(s);
    if all.len() > MAX_OUTPUT_LINES {
        joined(all.skip(all.len() - MAX_OUTPUT_LINES), "\n"@)
    } else {
        s
    }
}

/// The longest end of the text that fits the given number of bytes.
pub open spec fn fitting_end(s: Seq<char>, max: nat) -> Seq<char>
    decreases s.len(),
{
    if s.len() == 0 || byte_len(s) <= max {
        s
    } else {
        fitting_end(s.drop_first(), max)
    }
}

/// The last bytes, as many as are shown, from the start of a line on.
pub open spec fn last_bytes(s: Seq<char>) -> Seq<char> {
    if byte_len(s) > MAX_OUTPUT_BYTES {
        after_first_line(fitting_end(s, MAX_OUTPUT_BYTES as nat))
    } else {
        s
    }
}

/// The log's text without a line that was cut off at the start.
pub open spec fn whole_lines(text: Seq<char>, skipped: bool) -> Seq<char> {
    if skipped {
        after_first_line(text)
    } else {
        text
    }
}

/// The part of the log's text that is shown.
pub open spec fn shown(text: Seq<char>, skipped: bool) -> Seq<char> {
    last_bytes(last_lines(whole_lines(text, skipped)))
}

/// Whether a part of the log is not shown.
pub open spec fn cut(text: Seq<char>, skipped: bool) -> bool {
    let t = whole_lines(text, skipped);
    skipped || lines_of(t).len() > MAX_OUTPUT_LINES || byte_len(last_lines(t)) > MAX_OUTPUT_BYTES
}

/// The note behind output that was cut.
pub open spec fn cut_note(path: Seq<char>) -> Seq<char> {
    "\n\n[Output truncated. Full output: "@ + path + "]"@
}

/// The output to show for a log: the part that is shown, with a note where that is not all.
pub open spec fn tail_output(text: Seq<char>, skipped: bool, path: Seq<char>) -> Seq<char> {
    if cut(text, skipped) {
        shown(text, skipped) + cut_note(path)
    } else {
        shown(text, skipped)
    }
}

/// Where what follows the first line feed begins.
fn line_start(v: &Vec<char>, from: usize) -> (r: usize)
    requires
        from <= v@.len(),
    ensures
        from <= r <= v@.len(),
        after_first_line(v@.skip(from as int)) == v@.skip(r as int),
{
    let ghost s = v@.skip(from as int);
    let total: usize = v.len();
    match find_char(v, '\n', from) {
        Some(i) => {
            proof {
                assert(i < total);
                assert(s[i - from] == '\n');
                lemma_after_first_line(s, i - from);
                assert(s.skip(i - from + 1) =~= v@.skip(i + 1));
            }
            i + 1
        },
        None => {
            assert(!s.contains('\n')) by {
                if s.contains('\n') {
                    let j = choose|j: int| 0 <= j < s.len() && s[j] == '\n';
                    assert(v@[from + j] == '\n');
                }
            }
            from
        },
    }
}

proof fn lemma_after_first_line(s: Seq<char>, i: int)
    requires
        0 <= i < s.len(),
        s[i] == '\n',
        forall|j: int| 0 <= j < i ==> s[j] != '\n',
    ensures
        after_first_line(s) == s.skip(i + 1),
    decreases i,
{
    assert(s.contains('\n'));
    if i == 0 {
        assert(s.drop_first() =~= s.skip(1));
    } else {
        lemma_after_first_line(s.drop_first(), i - 1);
        assert(s.drop_first().skip(i) =~= s.skip(i + 1));
    }
}

/// The length in bytes of an end of the text.
proof fn lemma_end_bytes(s: Seq<char>, i: int)
    requires
        0 <= i < s.len(),
    ensures
        byte_len(s.skip(i)) == char_bytes(s[i]) + byte_len(s.skip(i + 1)),
{
    assert(s.skip(i).drop_first() =~= s.skip(i + 1));
}

proof fn lemma_end_shrinks(s: Seq<char>, i: int, j: int)
    requires
        0 <= i <= j <= s.len(),
    ensures
        byte_len(s.skip(j)) <= byte_len(s.skip(i)),
    decreases j - i,
{
    if i < j {
        lemma_end_bytes(s, i);
        lemma_end_shrinks(s, i + 1, j);
    }
}

proof fn lemma_fitting_end(s: Seq<char>, i: int, max: nat)
    requires
        0 <= i <= s.len(),
        byte_len(s.skip(i)) <= max,
        i > 0 ==> byte_len(s.skip(i - 1)) > max,
    ensures
        fitting_end(s, max) == s.skip(i),
    decreases i,
{
    assert(s.skip(0) =~= s);
    if i > 0 {
        lemma_end_shrinks(s, 0, i - 1);
        let t = s.drop_first();
        assert(t.skip(i - 1) =~= s.skip(i));
        if i > 1 {
            assert(t.skip(i - 2) =~= s.skip(i - 1));
        }
        lemma_fitting_end(t, i - 1, max);
    }
}

/// Where the longest end of the text that fits begins.
fn fitting_start(v: &Vec<char>, max: usize) -> (r: usize)
    ensures
        r <= v@.len(),
        fitting_end(v@, max as nat) == v@.skip(r as int),
{
    let mut i: usize = v.len();
    let mut size: usize = 0;
    assert(v@.skip(i as int) =~= Seq::<char>::empty());
    while i > 0
        invariant
            i <= v@.len(),
            size == byte_len(v@.skip(i as int)),
            size <= max,
        decreases i,
    {
        let width: usize = char_width(v[i - 1]);
        proof {
            lemma_end_bytes(v@, i - 1);
        }
        if width > max - size {
            proof {
                lemma_fitting_end(v@, i as int, max as nat);
            }
            return i;
        }
        size += width;
        i -= 1;
    }
    proof {
        lemma_fitting_end(v@, 0, max as nat);
    }
    0
}

/// The output to show for a log's text, and whether that is not all of it. `skipped` says
/// that the text begins in the middle of the log.
pub fn bound_output(text: &str, skipped: bool, path: &str) -> (r: (String, bool))
    ensures
        r.0@ == tail_output(text@, skipped, path@),
        r.1 == cut(text@, skipped),
{
    let v = chars_of(text);
    let mut truncated = skipped;
    assert(v@.skip(0) =~= v@);
    let first: usize = if skipped {
        line_start(&v, 0)
    } else {
        0
    };
    let whole = slice_text(&v, first, v.len());
    assert(whole@ =~= v@.skip(first as int));
    assert(whole@ == whole_lines(text@, skipped));
    let all = lines(whole.as_str());
    let mut out = if all.len() > MAX_OUTPUT_LINES {
        truncated = true;
        join_from(&all, all.len() - MAX_OUTPUT_LINES, "\n")
    } else {
        whole
    };
    assert(texts(all@).len() == all@.len());
    assert(out@ == last_lines(whole_lines(text@, skipped)));
    if text_bytes(out.as_str()) > MAX_OUTPUT_BYTES {
        truncated = true;
        let w = chars_of(out.as_str());
        let end = fitting_start(&w, MAX_OUTPUT_BYTES);
        let from = line_start(&w, end);
        assert(w@.subrange(from as int, w@.len() as int) =~= w@.skip(from as int));
        out = slice_text(&w, from, w.len());
    }
    assert(out@ == shown(text@, skipped));
    if truncated {
        out.push_str("\n\n[Output truncated. Full output: ");
        out.push_str(path);
        out.push_str("]");
        assert(out@ =~= shown(text@, skipped) + cut_note(path@));
    }
    (out, truncated)
}

/// The output to show for the bytes that were read from the end of a log, from `start` on,
/// and whether that is not all of the log.
pub fn bounded_tail(bytes: &Vec<u8>, start: u64, path: &str) -> (r: (String, bool))
    ensures
        r.0@ == tail_output(lossy_text(bytes@), start > 0, path@),
        r.1 == cut(lossy_text(bytes@), start > 0),
        valid_utf8(bytes@) ==> lossy_text(bytes@) == decode_utf8(bytes@),
{
    let text = decode_lossy(bytes);
    bound_output(text.as_str(), start > 0, path)
}

// ---------------------------------------------------------------------------------------
// How much is shown

/// The number of line feeds in the text.
pub open spec fn line_feeds(s: Seq<char>) -> nat
    decreases s.len(),
{
    if s.len() == 0 {
        0
    } else if s.last() == '\n' {
        line_feeds(s.drop_last()) + 1
    } else {
        line_feeds(s.drop_last())
    }
}

proof fn lemma_line_feeds_concat(a: Seq<char>, b: Seq<char>)
    ensures
        line_feeds(a + b) == line_feeds(a) + line_feeds(b),
    decreases b.len(),
{
    if b.len() == 0 {
        assert(a + b =~= a);
    } else {
        assert((a + b).drop_last() =~= a + b.drop_last());
        lemma_line_feeds_concat(a, b.drop_last());
    }
}

/// How the parts between line feeds relate to the line feeds.
proof fn lemma_parts(s: Seq<char>)
    ensures
        parts(s, '\n').len() == line_feeds(s) + 1,
        parts(s, '\n').last().len() == 0 <==> (s.len() == 0 || s.last() == '\n'),
        forall|i: int|
            0 <= i < parts(s, '\n').len() ==> line_feeds(#[trigger] parts(s, '\n')[i]) == 0,
    decreases s.len(),
{
    if s.len() > 0 {
        lemma_parts(s.drop_last());
        let before = parts(s.drop_last(), '\n');
        if s.last() != '\n' {
            let grown = before.last().push(s.last());
            assert(grown.drop_last() =~= before.last());
            assert(line_feeds(before[before.len() - 1]) == 0);
        }
    }
}

/// The number of lines of a text.
proof fn lemma_line_count(s: Seq<char>)
    ensures
        lines_of(s).len() == line_feeds(s) + (if s.len() > 0 && s.last() != '\n' {
            1nat
        } else {
            0nat
        }),
        forall|i: int| 0 <= i < lines_of(s).len() ==> line_feeds(#[trigger] lines_of(s)[i]) == 0,
{
    lemma_parts(s);
    let all = parts(s, '\n');
    assert forall|i: int| 0 <= i < lines_of(s).len() implies line_feeds(#[trigger] lines_of(s)[i])
        == 0 by {
        assert(line_feeds(all[i]) == 0);
        if i < all.len() - 1 {
            assert(lines_of(s)[i] == without_return(all[i]));
        } else {
            assert(lines_of(s)[i] == all[i]);
        }
    }
}

/// An end of a text has no more lines than the text.
proof fn lemma_end_lines(s: Seq<char>, i: int)
    requires
        0 <= i <= s.len(),
    ensures
        lines_of(s.skip(i)).len() <= lines_of(s).len(),
{
    lemma_line_count(s);
    lemma_line_count(s.skip(i));
    assert(s =~= s.take(i) + s.skip(i));
    lemma_line_feeds_concat(s.take(i), s.skip(i));
}

proof fn lemma_joined_feeds(v: Seq<Seq<char>>)
    requires
        forall|i: int| 0 <= i < v.len() ==> line_feeds(#[trigger] v[i]) == 0,
        v.len() > 0,
    ensures
        line_feeds(joined(v, "\n"@)) == v.len() - 1,
    decreases v.len(),
{
    reveal_strlit("\n");
    if v.len() == 1 {
        assert(line_feeds(v[0]) == 0);
    } else {
        let init = v.drop_last();
        assert forall|i: int| 0 <= i < init.len() implies line_feeds(#[trigger] init[i]) == 0 by {
            assert(line_feeds(v[i]) == 0);
        }
        lemma_joined_feeds(init);
        lemma_line_feeds_concat(joined(init, "\n"@), "\n"@);
        lemma_line_feeds_concat(joined(init, "\n"@) + "\n"@, v.last());
        assert("\n"@.drop_last() =~= Seq::<char>::empty());
        assert("\n"@.last() == '\n');
        assert(line_feeds(Seq::<char>::empty()) == 0);
        assert(line_feeds("\n"@) == 1);
        assert(line_feeds(v[v.len() - 1]) == 0);
    }
}

proof fn lemma_after_is_end(s: Seq<char>) -> (i: int)
    ensures
        0 <= i <= s.len(),
        after_first_line(s) == s.skip(i),
    decreases s.len(),
{
    assert(s.skip(0) =~= s);
    if s.contains('\n') {
        if s[0] == '\n' {
            assert(s.drop_first() =~= s.skip(1));
            1
        } else {
            let i = lemma_after_is_end(s.drop_first());
            assert(s.drop_first().skip(i) =~= s.skip(i + 1));
            i + 1
        }
    } else {
        0
    }
}

proof fn lemma_fitting_is_end(s: Seq<char>, max: nat) -> (i: int)
    ensures
        0 <= i <= s.len(),
        fitting_end(s, max) == s.skip(i),
        byte_len(fitting_end(s, max)) <= max,
    decreases s.len(),
{
    lemma_byte_len_bound(s);
    assert(s.skip(0) =~= s);
    if s.len() == 0 || byte_len(s) <= max {
        0
    } else {
        let i = lemma_fitting_is_end(s.drop_first(), max);
        assert(s.drop_first().skip(i) =~= s.skip(i + 1));
        i + 1
    }
}

/// No more than the allowed lines and bytes of a log are shown, before the note that says
/// where to find the rest.
pub proof fn lemma_output_is_bounded(text: Seq<char>, skipped: bool)
    ensures
        lines_of(shown(text, skipped)).len() <= MAX_OUTPUT_LINES,
        byte_len(shown(text, skipped)) <= MAX_OUTPUT_BYTES,
{
    let t = whole_lines(text, skipped);
    let all = lines_of(t);
    let l = last_lines(t);
    lemma_line_count(t);
    if all.len() > MAX_OUTPUT_LINES {
        let last = all.skip(all.len() - MAX_OUTPUT_LINES);
        assert forall|i: int| 0 <= i < last.len() implies line_feeds(#[trigger] last[i]) == 0 by {
            assert(line_feeds(all[all.len() - MAX_OUTPUT_LINES + i]) == 0);
        }
        lemma_joined_feeds(last);
        lemma_line_count(l);
    }
    if byte_len(l) > MAX_OUTPUT_BYTES {
        let f = fitting_end(l, MAX_OUTPUT_BYTES as nat);
        let i = lemma_fitting_is_end(l, MAX_OUTPUT_BYTES as nat);
        lemma_end_lines(l, i);
        let j = lemma_after_is_end(f);
        lemma_end_lines(f, j);
        assert(f.skip(0) =~= f);
        lemma_end_shrinks(f, 0, j);
    }
}

/// A log that was read from its start and fits the limits is shown whole, without a note.
pub proof fn lemma_small_output_is_whole(text: Seq<char>, path: Seq<char>)
    requires
        lines_of(text).len() <= MAX_OUTPUT_LINES,
        byte_len(text) <= MAX_OUTPUT_BYTES,
    ensures
        !cut(text, false),
        tail_output(text, false, path) == text,
{
}

/// Output without a note is the whole text.
pub proof fn lemma_no_note_means_whole(text: Seq<char>, skipped: bool, path: Seq<char>)
    requires
        !cut(text, skipped),
    ensures
        !skipped,
        tail_output(text, skipped, path) == text,
{
}

/// Whether the text ends with the given one.
pub open spec fn is_end(text: Seq<char>, end: Seq<char>) -> bool {
    end.len() <= text.len() && text.skip(text.len() - end.len()) == end
}

proof fn lemma_end_of_end(text: Seq<char>, end: Seq<char>, i: int)
    requires
        is_end(text, end),
        0 <= i <= end.len(),
    ensures
        is_end(text, end.skip(i)),
{
    assert(text.skip(text.len() - end.skip(i).len()) =~= text.skip(text.len() - end.len()).skip(i));
}

/// The last lines are an end of the text, but for the line feed behind the last one.
proof fn lemma_last_lines_are_an_end(t: Seq<char>)
    requires
        !t.contains('\r') || lines_of(t).len() <= MAX_OUTPUT_LINES,
    ensures
        is_end(t, last_lines(t)) || is_end(t, last_lines(t) + "\n"@),
{
    let ps = parts(t, '\n');
    let all = lines_of(t);
    lemma_parts_nonempty(t, '\n');
    lemma_parts_chars(t, '\n');
    lemma_joined_parts(t);
    assert(t.skip(0) =~= t);
    if all.len() > MAX_OUTPUT_LINES {
        assert forall|i: int| 0 <= i < all.len() implies #[trigger] all[i] == ps[i] by {
            let l = ps[i];
            if l.len() > 0 {
                assert(ps[i][l.len() - 1] != '\r');
            }
        }
        let k = all.len() - MAX_OUTPUT_LINES;
        let rest = ps.skip(k);
        lemma_joined_split(ps, "\n"@, k);
        let tail = joined(rest, "\n"@);
        assert(t.skip(t.len() - tail.len()) =~= tail);
        if ps.last().len() == 0 {
            assert(rest.drop_last() =~= all.skip(k));
            assert(rest.last() =~= Seq::<char>::empty());
            assert(tail =~= last_lines(t) + "\n"@);
        } else {
            assert(rest =~= all.skip(k));
        }
    }
}

/// What is shown of a log, or it with one line feed more, is an end of the log. (A carriage
/// return before a line feed is left out where there are too many lines, so this is said of logs
/// without carriage returns and of those that have no more lines than are shown.)
pub proof fn lemma_output_is_an_end(text: Seq<char>, skipped: bool)
    requires
        !text.contains('\r') || lines_of(whole_lines(text, skipped)).len() <= MAX_OUTPUT_LINES,
    ensures
        is_end(text, shown(text, skipped)) || is_end(text, shown(text, skipped) + "\n"@),
{
    let t = whole_lines(text, skipped);
    let l = last_lines(t);
    assert(text.skip(0) =~= text);
    let from = if skipped {
        lemma_after_is_end(text)
    } else {
        0
    };
    lemma_end_of_end(text, text, from);
    assert(t.contains('\r') ==> text.contains('\r')) by {
        if t.contains('\r') {
            let at = choose|at: int| 0 <= at < t.len() && t[at] == '\r';
            assert(text[from + at] == '\r');
        }
    }
    lemma_last_lines_are_an_end(t);
    let more = if is_end(t, l) {
        Seq::<char>::empty()
    } else {
        "\n"@
    };
    let whole = l + more;
    assert(l + Seq::<char>::empty() =~= l);
    lemma_end_of_end(text, t, t.len() - whole.len());
    assert(is_end(text, whole));
    if byte_len(l) > MAX_OUTPUT_BYTES {
        let f = fitting_end(l, MAX_OUTPUT_BYTES as nat);
        let i = lemma_fitting_is_end(l, MAX_OUTPUT_BYTES as nat);
        let j = lemma_after_is_end(f);
        assert(f.skip(j) =~= l.skip(i + j));
        lemma_end_of_end(text, whole, i + j);
        assert(whole.skip(i + j) =~= shown(text, skipped) + more);
    }
    assert(shown(text, skipped) + Seq::<char>::empty() =~= shown(text, skipped));
}

// ---------------------------------------------------------------------------------------
// Which part is shown

/// The longest end that fits: it is an end of the text, it fits, and no longer end does.
pub proof fn lemma_fitting_end_is_longest(s: Seq<char>, max: nat, e: int)
    requires
        0 <= e <= s.len(),
        byte_len(s.skip(e)) <= max,
    ensures
        is_end(s, fitting_end(s, max)),
        byte_len(fitting_end(s, max)) <= max,
        s.len() - e <= fitting_end(s, max).len(),
        byte_len(s.skip(e)) <= byte_len(fitting_end(s, max)),
    decreases s.len(),
{
    let i = lemma_fitting_is_end(s, max);
    let f = fitting_end(s, max);
    assert(s.skip(s.len() - f.len()) =~= s.skip(i));
    if e < i {
        lemma_earlier_end_does_not_fit(s, max, e);
    } else {
        lemma_end_shrinks(s, i, e);
    }
}

/// An end that begins before the one that fits does not fit.
proof fn lemma_earlier_end_does_not_fit(s: Seq<char>, max: nat, e: int)
    requires
        0 <= e < s.len() - fitting_end(s, max).len(),
    ensures
        byte_len(s.skip(e)) > max,
    decreases s.len(),
{
    assert(s.skip(0) =~= s);
    if s.len() > 0 && byte_len(s) > max {
        let rest = s.drop_first();
        if e > 0 {
            lemma_earlier_end_does_not_fit(rest, max, e - 1);
            assert(rest.skip(e - 1) =~= s.skip(e));
        }
    }
}

/// Output of no more than 51200 bytes is shown whole, but for lines beyond the last 2000. Longer
/// output is shown from the start of a line on, and no more of it could be shown that way: of
/// all ends that begin behind a line feed among the last 51200 bytes, the longest is shown.
/// Where there is no line feed among them, the longest end that fits is shown.
pub proof fn lemma_as_much_is_shown_as_fits(text: Seq<char>, skipped: bool, q: int)
    ensures
        ({
            let t = last_lines(whole_lines(text, skipped));
            let s = shown(text, skipped);
            let fits = |i: int| 0 <= i <= t.len() && byte_len(t.skip(i)) <= 51200;
            &&& byte_len(t) <= 51200 ==> s == t
            &&& byte_len(t) > 51200 ==> {
                &&& is_end(t, s)
                &&& byte_len(s) <= 51200
                &&& 0 <= q < t.len() && t[q] == '\n' && fits(q) ==> {
                    &&& t.len() - (q + 1) <= s.len()
                    &&& byte_len(t.skip(q + 1)) <= byte_len(s)
                    &&& s.len() < t.len()
                    &&& t[t.len() - s.len() - 1] == '\n'
                    &&& fits(t.len() - s.len() - 1)
                }
                &&& (forall|i: int|
                    0 <= i < t.len() && #[trigger] t[i] == '\n' ==> byte_len(t.skip(i)) > 51200)
                    && 0 <= q <= t.len() && fits(q) ==> t.len() - q <= s.len()
            }
        }),
{
    let t = last_lines(whole_lines(text, skipped));
    let s = shown(text, skipped);
    let max = MAX_OUTPUT_BYTES as nat;
    if byte_len(t) > max {
        let i = lemma_fitting_is_end(t, max);
        let f = fitting_end(t, max);
        lemma_fitting_end_is_longest(t, max, i);
        let j = lemma_first_line_feed(f);
        assert(s == after_first_line(f));
        if 0 <= q <= t.len() && byte_len(t.skip(q)) <= max {
            lemma_fitting_end_is_longest(t, max, q);
            assert(i <= q);
        }
        if j < f.len() {
            assert(s == f.skip(j + 1));
            assert(t.skip(t.len() - s.len()) =~= s);
            assert(t[t.len() - s.len() - 1] == f[j]);
            assert(f.skip(0) =~= f);
            lemma_end_shrinks(f, 0, j + 1);
            lemma_end_shrinks(f, 0, j);
            assert(t.skip(t.len() - s.len() - 1) =~= f.skip(j));
            if 0 <= q < t.len() && t[q] == '\n' && byte_len(t.skip(q)) <= max {
                assert(f[q - i] == '\n');
                assert(j <= q - i);
                lemma_end_shrinks(t, i + j + 1, q + 1);
                assert(t.skip(i + j + 1) =~= s);
            }
            if forall|k: int|
                0 <= k < t.len() && #[trigger] t[k] == '\n' ==> byte_len(t.skip(k)) > 51200 {
                assert(t[i + j] == '\n');
            }
        } else {
            assert(s == f);
            if 0 <= q < t.len() && t[q] == '\n' && byte_len(t.skip(q)) <= max {
                assert(f[q - i] == '\n');
            }
        }
    }
}

/// Where the first line feed stands, and what follows it; the length of the text where there is
/// none.
proof fn lemma_first_line_feed(s: Seq<char>) -> (j: int)
    ensures
        0 <= j <= s.len(),
        forall|i: int| 0 <= i < j ==> #[trigger] s[i] != '\n',
        j < s.len() ==> s[j] == '\n' && after_first_line(s) == s.skip(j + 1),
        j == s.len() ==> after_first_line(s) == s,
    decreases s.len(),
{
    if s.contains('\n') {
        if s[0] == '\n' {
            assert(s.drop_first() =~= s.skip(1));
            0
        } else {
            let rest = s.drop_first();
            let at = choose|at: int| 0 <= at < s.len() && s[at] == '\n';
            assert(rest[at - 1] == '\n');
            let j = lemma_first_line_feed(rest);
            assert(j < rest.len()) by {
                if j == rest.len() {
                    assert(rest[at - 1] != '\n');
                }
            }
            assert(rest.skip(j + 1) =~= s.skip(j + 2));
            assert forall|i: int| 0 <= i < j + 1 implies #[trigger] s[i] != '\n' by {
                if i > 0 {
                    assert(s[i] == rest[i - 1]);
                }
            }
            j + 1
        }
    } else {
        s.len() as int
    }
}

/// A log that was not read from its start: what stands before its first line feed is left out,
/// and the line feed too; without a line feed nothing is left out. A log that was read from its
/// start is looked at whole.
pub proof fn lemma_cut_off_line_is_left_out(line: Seq<char>, rest: Seq<char>)
    requires
        !line.contains('\n'),
    ensures
        whole_lines(line + seq!['\n'] + rest, true) == rest,
        whole_lines(line, true) == line,
        whole_lines(rest, false) == rest,
{
    let s = line + seq!['\n'] + rest;
    assert(s[line.len() as int] == '\n');
    lemma_after_first_line(s, line.len() as int);
    assert(s.skip(line.len() as int + 1) =~= rest);
}

/// Of more than 2000 lines the last 2000 are looked at, with line feeds between them; no more
/// lines than that are looked at as they are.
pub proof fn lemma_last_lines(t: Seq<char>)
    ensures
        lines_of(t).len() <= 2000 ==> last_lines(t) == t,
        lines_of(t).len() > 2000 ==> last_lines(t) == joined(
            lines_of(t).subrange(lines_of(t).len() - 2000, lines_of(t).len() as int),
            "\n"@,
        ),
{
    let all = lines_of(t);
    if all.len() > 2000 {
        assert(all.skip(all.len() - 2000) =~= all.subrange(all.len() - 2000, all.len() as int));
    }
}

/// The note: it stands behind the output where a part of the log is not shown, which is where
/// it was not read from its start, has more than 2000 lines, or is longer than 51200 bytes.
pub proof fn lemma_when_the_note_stands(text: Seq<char>, skipped: bool, path: Seq<char>)
    ensures
        cut(text, skipped) <==> skipped || lines_of(text).len() > 2000 || byte_len(text) > 51200,
        cut(text, skipped) ==> tail_output(text, skipped, path) == shown(text, skipped)
            + "\n\n[Output truncated. Full output: "@ + path + "]"@,
        !cut(text, skipped) ==> tail_output(text, skipped, path) == text,
{
    if cut(text, skipped) {
        assert(tail_output(text, skipped, path) =~= shown(text, skipped)
            + "\n\n[Output truncated. Full output: "@ + path + "]"@);
    }
}

/// How much of a log is read for its end, and how much of it is shown at most.
pub proof fn lemma_limits_of_output()
    ensures
        MAX_TAIL_READ_BYTES == 128 * 1024,
        MAX_OUTPUT_BYTES == 50 * 1024,
        MAX_OUTPUT_LINES == 2000,
{
}

} // verus!

//! Reading a text file, a window of lines at a time.

use vstd::prelude::*;
use vstd::utf8::decode_utf8;
use vstd::utf8::valid_utf8;

use crate::outside::utf8_text;
use crate::text::byte_len;
use crate::text::concat;
use crate::text::decimal;
use crate::text::joined;
use crate::text::lemma_byte_len_bound;
use crate::text::lemma_encode_concat;
use crate::text::lemma_lines_of_joined;
use crate::text::lemma_parts_chars;
use crate::text::lemma_parts_nonempty;
use crate::text::lines;
use crate::text::lines_of;
use crate::text::numeral;
use crate::text::parts;
use crate::text::text_bytes;
use crate::text::texts;
use crate::tools::image::embeds;
use crate::tools::image::image_mime_type;
use crate::tools::image::is_fitting;
use crate::tools::image::kind_of_bytes;
use crate::tools::image::mime_of;
use crate::tools::image::preview_of;
use crate::tools::image::read_image;
use crate::tools::image::reports;
use crate::tools::image::too_large;
use crate::tools::image::ImageReadMetadata;
use crate::tools::image::ImageResource;
use crate::tools::image::MAX_IMAGE_BYTES;
use crate::tools::tail::MAX_OUTPUT_BYTES;
use crate::tools::tail::MAX_OUTPUT_LINES;

verus! {

/// The arguments of the read tool: a path, the first line to show, counted from one, and how
/// many lines to show.
#[derive(Debug)]
pub struct ReadParams {
    pub path: String,
    pub offset: Option<usize>,
    pub limit: Option<usize>,
}

/// What the read tool reports of a text file.
#[derive(Debug)]
pub struct ReadOutput {
    pub mime_type: String,
    pub bytes: usize,
    pub path: String,
}

/// The type that is reported for text files.
pub const TEXT_MIME_TYPE: &'static str = "text/plain; charset=utf-8";

/// The smaller of two numbers.
pub open spec fn smaller(a: int, b: int) -> int {
    if a <= b {
        a
    } else {
        b
    }
}

/// The first line of the window, counted from zero, in a text of `n` lines.
pub open spec fn window_start(offset: Option<usize>, n: nat) -> int {
    match offset {
        Some(o) => smaller(if o > 0 {
            o - 1
        } else {
            0
        }, n as int),
        None => 0,
    }
}

/// The line behind the window, counted from zero, in a text of `n` lines.
pub open spec fn window_end(offset: Option<usize>, limit: Option<usize>, n: nat) -> int {
    match limit {
        Some(l) => smaller(window_start(offset, n) + l, n as int),
        None => n as int,
    }
}

/// The lines of the window.
pub open spec fn window(
    all: Seq<Seq<char>>,
    offset: Option<usize>,
    limit: Option<usize>,
) -> Seq<Seq<char>> {
    all.subrange(window_start(offset, all.len()), window_end(offset, limit, all.len()))
}

/// The first `k` lines put together. A line feed goes between a line and what stands before
/// it, but not where nothing stands before it yet.
pub open spec fn page(ls: Seq<Seq<char>>, k: int) -> Seq<char>
    decreases k,
{
    if k <= 0 {
        Seq::<char>::empty()
    } else if page(ls, k - 1).len() == 0 {
        ls[k - 1]
    } else {
        page(ls, k - 1) + "\n"@ + ls[k - 1]
    }
}

/// Whether line `k` fits behind the lines before it.
pub open spec fn fits(ls: Seq<Seq<char>>, k: int) -> bool {
    &&& k < MAX_OUTPUT_LINES
    &&& byte_len(page(ls, k)) + byte_len(ls[k]) + (if page(ls, k).len() > 0 {
        1int
    } else {
        0int
    }) <= MAX_OUTPUT_BYTES
}

/// How many lines are shown, where the first `k` are: lines are added as long as they fit.
pub open spec fn lines_shown(ls: Seq<Seq<char>>, k: int) -> int
    decreases ls.len() - k,
{
    if 0 <= k < ls.len() && fits(ls, k) {
        lines_shown(ls, k + 1)
    } else {
        k
    }
}

/// The note behind a page that was cut: the line to go on with, counted from one.
pub open spec fn next_note(next: nat) -> Seq<char> {
    "\n\n[Output truncated. Continue reading with offset="@ + numeral(next) + ".]"@
}

/// What is shown of a text.
pub open spec fn read_output(
    text: Seq<char>,
    offset: Option<usize>,
    limit: Option<usize>,
) -> Seq<char> {
    let all = lines_of(text);
    let ls = window(all, offset, limit);
    let k = lines_shown(ls, 0);
    if k < ls.len() {
        page(ls, k) + next_note((window_start(offset, all.len()) + k + 1) as nat)
    } else {
        page(ls, k)
    }
}

/// Shows a window of a text, as much of it as fits the limits.
pub fn read_text(text: &str, offset: Option<usize>, limit: Option<usize>) -> (r: String)
    ensures
        r@ == read_output(text@, offset, limit),
{
    let all = lines(text);
    let total: usize = all.len();
    let ghost shown = texts(all@);
    assert(shown.len() == total);
    let wanted: usize = match offset {
        Some(o) => o.saturating_sub(1),
        None => 0,
    };
    let start: usize = if wanted <= total {
        wanted
    } else {
        total
    };
    let end: usize = match limit {
        Some(l) => if l <= total - start {
            start + l
        } else {
            total
        },
        None => total,
    };
    let ghost ls = window(shown, offset, limit);
    assert(ls == shown.subrange(start as int, end as int));
    let mut out = String::new();
    let mut count: usize = 0;
    let mut truncated = false;
    while count < end - start && !truncated
        invariant
            start <= end <= total == all@.len(),
            shown == texts(all@),
            ls == shown.subrange(start as int, end as int),
            count <= end - start,
            out@ == page(ls, count as int),
            lines_shown(ls, 0) == lines_shown(ls, count as int),
            truncated ==> count < end - start && !fits(ls, count as int),
        decreases
            end - start - count,
            if truncated {
                0int
            } else {
                1int
            },
    {
        let line = all[start + count].as_str();
        assert(ls[count as int] == line@);
        let gap: usize = if out.as_str().is_empty() {
            0
        } else {
            1
        };
        let needed: usize = text_bytes(line).saturating_add(gap);
        let size: usize = text_bytes(out.as_str());
        if count >= MAX_OUTPUT_LINES || size.saturating_add(needed) > MAX_OUTPUT_BYTES {
            truncated = true;
        } else {
            if gap > 0 {
                out.push_str("\n");
            }
            out.push_str(line);
            assert(out@ =~= page(ls, count + 1));
            count += 1;
        }
    }
    assert(lines_shown(ls, 0) == count);
    if truncated {
        let next: usize = start + count + 1;
        let digits = decimal(next as u64);
        out.push_str("\n\n[Output truncated. Continue reading with offset=");
        out.push_str(digits.as_str());
        out.push_str(".]");
        assert(out@ =~= page(ls, count as int) + next_note(next as nat));
    }
    out
}

/// The message for a file that does not hold text.
pub open spec fn not_text(path: Seq<char>) -> Seq<char> {
    path + " is not a UTF-8 text file"@
}

/// The text that a file holds, or that it holds none.
pub fn text_file(bytes: Vec<u8>, path: &str) -> (r: Result<String, String>)
    ensures
        match r {
            Ok(text) => valid_utf8(bytes@) && text@ == decode_utf8(bytes@),
            Err(m) => !valid_utf8(bytes@) && m@ == not_text(path@),
        },
{
    match utf8_text(bytes) {
        Some(text) => Ok(text),
        None => Err(concat(path, " is not a UTF-8 text file")),
    }
}

/// What the read tool hands out.
#[derive(Debug)]
pub enum ReadResult {
    /// Lines of a text file.
    Text(String, ReadOutput),
    /// A preview of an image.
    Image(ImageReadMetadata, ImageResource),
}

/// What the read tool hands out for a file, or why it cannot: an image is told by its
/// content, and everything else has to be text.
pub fn read_result(bytes: Vec<u8>, input: &ReadParams) -> (r: Result<ReadResult, String>)
    ensures
        match kind_of_bytes(bytes@) {
            Some(kind) => if bytes@.len() > MAX_IMAGE_BYTES {
                r matches Err(e) && e@ == too_large(input.path@, mime_of(kind))
            } else {
                match preview_of(bytes@, mime_of(kind)) {
                    Err(e) => r matches Err(m) && m@ == e,
                    Ok(p) => r matches Ok(ReadResult::Image(metadata, resource)) && reports(
                        metadata,
                        p,
                        input.path@,
                        mime_of(kind),
                        bytes@.len(),
                    ) && embeds(resource, p),
                }
            },
            None => if valid_utf8(bytes@) {
                r matches Ok(ReadResult::Text(shown, out)) && {
                    &&& shown@ == read_output(decode_utf8(bytes@), input.offset, input.limit)
                    &&& out.mime_type@ == TEXT_MIME_TYPE@
                    &&& out.bytes == bytes@.len()
                    &&& out.path == input.path
                }
            } else {
                r matches Err(m) && m@ == not_text(input.path@)
            },
        },
        r matches Ok(ReadResult::Image(_, _)) ==> (kind_of_bytes(bytes@) matches Some(kind) && (
        preview_of(bytes@, mime_of(kind)) matches Ok(p) && is_fitting(p))),
{
    let path = input.path.as_str();
    match image_mime_type(bytes.as_slice()) {
        Some(mime_type) => match read_image(&bytes, path, mime_type) {
            Ok((metadata, resource)) => Ok(ReadResult::Image(metadata, resource)),
            Err(e) => Err(e),
        },
        None => {
            let total: usize = bytes.len();
            match text_file(bytes, path) {
                Ok(text) => {
                    let shown = read_text(text.as_str(), input.offset, input.limit);
                    let out = ReadOutput {
                        mime_type: TEXT_MIME_TYPE.to_owned(),
                        bytes: total,
                        path: input.path.clone(),
                    };
                    Ok(ReadResult::Text(shown, out))
                },
                Err(m) => Err(m),
            }
        },
    }
}

// ---------------------------------------------------------------------------------------
// Reading page by page

/// The lines that are shown are lines of the window, and as many as possible.
proof fn lemma_lines_shown(ls: Seq<Seq<char>>, k: int)
    requires
        0 <= k <= ls.len(),
    ensures
        k <= lines_shown(ls, k) <= ls.len(),
        forall|j: int| k <= j < lines_shown(ls, k) ==> #[trigger] fits(ls, j),
        lines_shown(ls, k) < ls.len() ==> !fits(ls, lines_shown(ls, k)),
    decreases ls.len() - k,
{
    if k < ls.len() && fits(ls, k) {
        lemma_lines_shown(ls, k + 1);
    }
}

proof fn lemma_page_bytes(ls: Seq<Seq<char>>, k: int)
    requires
        0 <= k <= ls.len(),
        forall|j: int| 0 <= j < k ==> #[trigger] fits(ls, j),
    ensures
        byte_len(page(ls, k)) <= MAX_OUTPUT_BYTES,
        k <= MAX_OUTPUT_LINES,
    decreases k,
{
    lemma_byte_len_bound(Seq::<char>::empty());
    if k > 0 {
        lemma_page_bytes(ls, k - 1);
        assert(fits(ls, k - 1));
        let before = page(ls, k - 1);
        lemma_byte_len_bound(before);
        lemma_encode_concat(before + "\n"@, ls[k - 1]);
        lemma_encode_concat(before, "\n"@);
        assert(byte_len("\n"@) == 1) by {
            reveal_strlit("\n");
            assert("\n"@ =~= Seq::<char>::empty().push('\n'));
            crate::text::lemma_byte_len_push(Seq::<char>::empty(), '\n');
        }
    }
}

/// No more than the allowed lines and bytes are shown, before the note on how to go on.
pub proof fn lemma_page_is_bounded(all: Seq<Seq<char>>, offset: Option<usize>, limit: Option<usize>)
    ensures
        ({
            let ls = window(all, offset, limit);
            let k = lines_shown(ls, 0);
            &&& 0 <= k <= ls.len()
            &&& k <= MAX_OUTPUT_LINES
            &&& byte_len(page(ls, k)) <= MAX_OUTPUT_BYTES
        }),
{
    let ls = window(all, offset, limit);
    lemma_lines_shown(ls, 0);
    lemma_page_bytes(ls, lines_shown(ls, 0));
}

/// Reading on with the offset in the note shows the lines behind those that were shown:
/// none is left out and none is shown twice.
pub proof fn lemma_reading_on(
    all: Seq<Seq<char>>,
    offset: Option<usize>,
    limit: Option<usize>,
    next: usize,
)
    requires
        lines_shown(window(all, offset, limit), 0) < window(all, offset, limit).len(),
        next == window_start(offset, all.len()) + lines_shown(window(all, offset, limit), 0) + 1,
    ensures
        window(all, Some(next), None) == all.skip(
            window_start(offset, all.len()) + lines_shown(window(all, offset, limit), 0),
        ),
{
    let ls = window(all, offset, limit);
    lemma_lines_shown(ls, 0);
    assert(window(all, Some(next), None) =~= all.skip(next - 1));
}

/// A page shows at least one line, where the window has one and its first line fits on its
/// own. (A longer first line is never shown.)
pub proof fn lemma_page_makes_progress(ls: Seq<Seq<char>>)
    requires
        ls.len() > 0,
        byte_len(ls[0]) <= MAX_OUTPUT_BYTES,
    ensures
        lines_shown(ls, 0) > 0,
{
    lemma_byte_len_bound(Seq::<char>::empty());
    assert(fits(ls, 0));
    lemma_lines_shown(ls, 1);
}

/// A page that starts with a line that is not empty is its lines with line feeds between
/// them.
pub proof fn lemma_page_is_joined(ls: Seq<Seq<char>>, k: int)
    requires
        0 < k <= ls.len(),
        ls[0].len() > 0,
    ensures
        page(ls, k) == joined(ls.take(k), "\n"@),
        page(ls, k).len() > 0,
    decreases k,
{
    if k == 1 {
        assert(page(ls, 0) =~= Seq::<char>::empty());
        assert(ls.take(1)[0] == ls[0]);
    } else {
        lemma_page_is_joined(ls, k - 1);
        assert(ls.take(k).drop_last() =~= ls.take(k - 1));
    }
}

/// What is shown of a text from the given line on, but for the note on how to go on.
pub open spec fn body_at(text: Seq<char>, offset: Option<usize>) -> Seq<char> {
    let ls = window(lines_of(text), offset, None);
    page(ls, lines_shown(ls, 0))
}

/// The offset that the note names, where there is a note.
pub open spec fn noted_offset(text: Seq<char>, offset: Option<usize>) -> Option<int> {
    let all = lines_of(text);
    let ls = window(all, offset, None);
    let k = lines_shown(ls, 0);
    if k < ls.len() {
        Some(window_start(offset, all.len()) + k + 1)
    } else {
        None
    }
}

/// The offsets of the calls that read a text to its end: each call goes on with the offset in
/// the note of the one before it. (Where a note does not lead any further, that is the end.)
pub open spec fn calls_from(text: Seq<char>, offset: Option<usize>) -> Seq<Option<usize>>
    decreases lines_of(text).len() - window_start(offset, lines_of(text).len()),
{
    match noted_offset(text, offset) {
        Some(next) => if window_start(offset, lines_of(text).len()) + 1 < next
            <= lines_of(text).len() && next <= usize::MAX {
            seq![offset] + calls_from(text, Some(next as usize))
        } else {
            seq![offset]
        },
        None => seq![offset],
    }
}

/// The lines that calls with the given offsets show, one call behind the other.
pub open spec fn lines_read(text: Seq<char>, calls: Seq<Option<usize>>) -> Seq<Seq<char>>
    decreases calls.len(),
{
    if calls.len() == 0 {
        Seq::<Seq<char>>::empty()
    } else {
        lines_of(body_at(text, calls[0])) + lines_read(text, calls.drop_first())
    }
}

/// Whether a call shows no more than the allowed lines and bytes.
pub open spec fn is_bounded(text: Seq<char>, offset: Option<usize>) -> bool {
    &&& lines_of(body_at(text, offset)).len() <= MAX_OUTPUT_LINES
    &&& byte_len(body_at(text, offset)) <= MAX_OUTPUT_BYTES
}

/// Whether a call says how to go on, and the next one goes on that way.
pub open spec fn leads_on(text: Seq<char>, calls: Seq<Option<usize>>, i: int) -> bool {
    calls[i + 1] matches Some(next) && read_output(text, calls[i], None) == body_at(text, calls[i])
        + next_note(next as nat)
}

/// Whether calls with the given offsets read a text from the given line on: every line once and
/// in order, a bounded number at a time, each call but the last saying how to go on.
pub open spec fn reads_on(text: Seq<char>, calls: Seq<Option<usize>>, start: int) -> bool {
    &&& calls.len() > 0
    &&& forall|i: int| 0 <= i < calls.len() ==> is_bounded(text, #[trigger] calls[i])
    &&& forall|i: int| 0 <= i < calls.len() - 1 ==> #[trigger] leads_on(text, calls, i)
    &&& read_output(text, calls.last(), None) == body_at(text, calls.last())
    &&& lines_read(text, calls) == lines_of(text).skip(start)
}

/// Whether all lines of a text can be shown: none is empty, holds a carriage return or is too
/// long for a page of its own.
pub open spec fn is_showable(text: Seq<char>) -> bool {
    &&& !text.contains('\r')
    &&& forall|i: int|
        0 <= i < lines_of(text).len() ==> 0 < (#[trigger] lines_of(text)[i]).len() && byte_len(
            lines_of(text)[i],
        ) <= MAX_OUTPUT_BYTES
}

/// The lines of a text without carriage returns hold neither those nor line feeds.
proof fn lemma_line_chars(text: Seq<char>)
    requires
        !text.contains('\r'),
    ensures
        forall|i: int|
            0 <= i < lines_of(text).len() ==> !(#[trigger] lines_of(text)[i]).contains('\n')
                && !lines_of(text)[i].contains('\r'),
{
    let ps = parts(text, '\n');
    lemma_parts_chars(text, '\n');
    lemma_parts_nonempty(text, '\n');
    assert forall|i: int| 0 <= i < lines_of(text).len() implies !(#[trigger] lines_of(
        text,
    )[i]).contains('\n') && !lines_of(text)[i].contains('\r') by {
        let l = lines_of(text)[i];
        assert forall|j: int| 0 <= j < l.len() implies (#[trigger] l[j]) != '\n' && l[j] != '\r' by {
            assert(l[j] == ps[i][j]);
        }
    }
}

/// What one call shows: the lines of its page, as they are.
proof fn lemma_body(text: Seq<char>, offset: Option<usize>)
    requires
        is_showable(text),
    ensures
        ({
            let ls = window(lines_of(text), offset, None);
            let k = lines_shown(ls, 0);
            &&& 0 <= k <= ls.len()
            &&& ls.len() > 0 ==> k > 0
            &&& lines_of(body_at(text, offset)) == ls.take(k)
            &&& is_bounded(text, offset)
        }),
{
    let all = lines_of(text);
    let start = window_start(offset, all.len());
    let ls = window(all, offset, None);
    let k = lines_shown(ls, 0);
    lemma_page_is_bounded(all, offset, None);
    if ls.len() == 0 {
        assert(body_at(text, offset) =~= Seq::<char>::empty());
        assert(lines_of(body_at(text, offset)) =~= ls.take(k));
    } else {
        assert(ls[0] == all[start]);
        lemma_page_makes_progress(ls);
        lemma_page_is_joined(ls, k);
        lemma_line_chars(text);
        let v = ls.take(k);
        assert forall|i: int| 0 <= i < v.len() implies (#[trigger] v[i]).len() > 0
            && !v[i].contains('\n') && !v[i].contains('\r') by {
            assert(v[i] == all[start + i]);
        }
        lemma_lines_of_joined(v);
    }
}

proof fn lemma_reading_from(text: Seq<char>, offset: Option<usize>)
    requires
        is_showable(text),
        lines_of(text).len() < usize::MAX,
    ensures
        calls_from(text, offset)[0] == offset,
        reads_on(
            text,
            calls_from(text, offset),
            window_start(offset, lines_of(text).len()),
        ),
    decreases lines_of(text).len() - window_start(offset, lines_of(text).len()),
{
    let all = lines_of(text);
    let start = window_start(offset, all.len());
    let ls = window(all, offset, None);
    let k = lines_shown(ls, 0);
    let calls = calls_from(text, offset);
    lemma_body(text, offset);
    assert(ls =~= all.skip(start));
    if k < ls.len() {
        let next = (start + k + 1) as usize;
        let rest = calls_from(text, Some(next));
        assert(window_start(Some(next), all.len()) == start + k);
        lemma_reading_from(text, Some(next));
        assert(calls =~= seq![offset] + rest);
        assert(calls.drop_first() =~= rest);
        assert forall|i: int| 0 <= i < calls.len() implies is_bounded(text, #[trigger] calls[i]) by {
            if i > 0 {
                assert(calls[i] == rest[i - 1]);
            }
        }
        assert forall|i: int| 0 <= i < calls.len() - 1 implies #[trigger] leads_on(
            text,
            calls,
            i,
        ) by {
            if i > 0 {
                assert(leads_on(text, rest, i - 1));
                assert(calls[i] == rest[i - 1]);
                assert(calls[i + 1] == rest[i]);
            } else {
                assert(calls[1] == rest[0]);
            }
        }
        assert(calls.last() == rest.last());
        assert(ls.take(k) + all.skip(start + k) =~= all.skip(start));
    } else {
        assert(calls =~= seq![offset]);
        assert(calls.drop_first() =~= Seq::<Option<usize>>::empty());
        assert(lines_read(text, calls.drop_first()) =~= Seq::<Seq<char>>::empty());
        assert(ls.take(k) =~= ls);
        assert(lines_read(text, calls) =~= all.skip(start));
    }
}

/// Reading a text page by page, first without an offset and then with the offset in the note
/// of the page before, shows every line once and in order, no more than the allowed lines and
/// bytes at a time, and comes to an end. (It holds of texts whose lines can all be shown: an
/// empty line at the top of a page is left out, and a line that is too long stops the reading.)
pub proof fn lemma_every_line_is_read_once(text: Seq<char>)
    requires
        is_showable(text),
        lines_of(text).len() < usize::MAX,
    ensures
        calls_from(text, None)[0] == None::<usize>,
        reads_on(text, calls_from(text, None), 0),
        lines_read(text, calls_from(text, None)) == lines_of(text),
{
    lemma_reading_from(text, None);
    assert(lines_of(text).skip(0) =~= lines_of(text));
}

// ---------------------------------------------------------------------------------------
// What a call shows

/// The window of a call: the lines from the offset on, counted from one, and of these no more
/// than the limit. Without an offset, or with the offset zero, it starts with the first line;
/// without a limit it goes to the end. An offset behind the end leaves nothing.
pub proof fn lemma_window(all: Seq<Seq<char>>, o: usize, l: usize)
    ensures
        window(all, None, None) == all,
        window(all, Some(0), None) == all,
        window(all, Some(0), Some(l)) == window(all, None, Some(l)),
        l <= all.len() ==> window(all, None, Some(l)) == all.take(l as int),
        l > all.len() ==> window(all, None, Some(l)) == all,
        1 <= o <= all.len() ==> window(all, Some(o), None) == all.skip(o - 1),
        o > all.len() ==> window(all, Some(o), None) == Seq::<Seq<char>>::empty(),
        window(all, Some(o), Some(l)).len() == if l <= window(all, Some(o), None).len() {
            l as nat
        } else {
            window(all, Some(o), None).len()
        },
        window(all, Some(o), Some(l)) == window(all, Some(o), None).take(
            window(all, Some(o), Some(l)).len() as int,
        ),
{
    let n = all.len() as int;
    assert(window(all, None, None) =~= all);
    assert(window(all, Some(0), None) =~= all);
    assert(window(all, Some(0), Some(l)) =~= window(all, None, Some(l)));
    if l <= n {
        assert(window(all, None, Some(l)) =~= all.take(l as int));
    } else {
        assert(window(all, None, Some(l)) =~= all);
    }
    if 1 <= o <= n {
        assert(window(all, Some(o), None) =~= all.skip(o - 1));
    }
    if o > n {
        assert(window(all, Some(o), None).len() <= 1);
        if o > n + 1 {
            assert(window(all, Some(o), None) =~= Seq::<Seq<char>>::empty());
        } else {
            assert(window(all, Some(o), None) =~= Seq::<Seq<char>>::empty());
        }
    }
    assert(window(all, Some(o), Some(l)) =~= window(all, Some(o), None).take(
        window(all, Some(o), Some(l)).len() as int,
    ));
}

/// A window with a limit and the window from behind it on make up the window without a limit:
/// no line is left out and none is shown twice.
pub proof fn lemma_windows_adjoin(all: Seq<Seq<char>>, o: usize, l: usize)
    requires
        1 <= o,
        o + l <= usize::MAX,
    ensures
        window(all, Some(o), Some(l)) + window(all, Some((o + l) as usize), None) == window(
            all,
            Some(o),
            None,
        ),
{
    assert(window(all, Some(o), Some(l)) + window(all, Some((o + l) as usize), None) =~= window(
        all,
        Some(o),
        None,
    ));
}

/// How the lines of a page are put together: with line feeds between them, but for empty lines
/// at the top of the page, which leave nothing.
pub proof fn lemma_page_lines(ls: Seq<Seq<char>>, k: int) -> (top: int)
    requires
        0 <= k <= ls.len(),
    ensures
        0 <= top <= k,
        forall|i: int| 0 <= i < top ==> (#[trigger] ls[i]).len() == 0,
        top < k ==> ls[top].len() > 0,
        page(ls, k) == joined(ls.subrange(top, k), "\n"@),
    decreases k,
{
    if k == 0 {
        assert(ls.subrange(0, 0) =~= Seq::<Seq<char>>::empty());
        0
    } else {
        let top = lemma_page_lines(ls, k - 1);
        if top < k - 1 {
            lemma_page_starts(ls, top, k - 1);
            assert(ls.subrange(top, k).drop_last() =~= ls.subrange(top, k - 1));
            assert(ls.subrange(top, k).last() == ls[k - 1]);
            top
        } else {
            assert(ls.subrange(k - 1, k - 1) =~= Seq::<Seq<char>>::empty());
            if ls[k - 1].len() > 0 {
                assert(ls.subrange(k - 1, k)[0] == ls[k - 1]);
                k - 1
            } else {
                assert(ls.subrange(k, k) =~= Seq::<Seq<char>>::empty());
                assert(page(ls, k) =~= Seq::<char>::empty());
                k
            }
        }
    }
}

proof fn lemma_page_starts(ls: Seq<Seq<char>>, top: int, k: int)
    requires
        0 <= top < k <= ls.len(),
        ls[top].len() > 0,
    ensures
        page(ls, k).len() > 0,
    decreases k,
{
    if k > top + 1 {
        lemma_page_starts(ls, top, k - 1);
    }
}

/// A page is as long as it may be: it ends where the window ends, where it has 2000 lines, or
/// where one line more would make it longer than 51200 bytes. No page is longer.
pub proof fn lemma_page_is_as_long_as_it_may_be(ls: Seq<Seq<char>>)
    ensures
        ({
            let k = lines_shown(ls, 0);
            &&& 0 <= k <= ls.len()
            &&& k <= 2000
            &&& byte_len(page(ls, k)) <= 51200
            &&& k == ls.len() || k == 2000 || byte_len(page(ls, k + 1)) > 51200
        }),
{
    let k = lines_shown(ls, 0);
    lemma_lines_shown(ls, 0);
    lemma_page_bytes(ls, k);
    if k < ls.len() && k < 2000 {
        let before = page(ls, k);
        let line = ls[k];
        lemma_byte_len_bound(before);
        lemma_encode_concat(before + "\n"@, line);
        lemma_encode_concat(before, "\n"@);
        assert(byte_len("\n"@) == 1) by {
            reveal_strlit("\n");
            assert("\n"@ =~= Seq::<char>::empty().push('\n'));
            crate::text::lemma_byte_len_push(Seq::<char>::empty(), '\n');
            lemma_byte_len_bound(Seq::<char>::empty());
        }
        assert(!fits(ls, k));
    }
}

/// What a call hands out: its page; and behind it, where the page does not reach the end of the
/// window, a note with the number of the first line that is not shown, counted from one.
pub proof fn lemma_what_a_call_shows(text: Seq<char>, offset: Option<usize>, limit: Option<usize>)
    ensures
        ({
            let all = lines_of(text);
            let ls = window(all, offset, limit);
            let k = lines_shown(ls, 0);
            let first = match offset {
                Some(o) => if o == 0 {
                    1int
                } else {
                    o as int
                },
                None => 1int,
            };
            &&& k == ls.len() ==> read_output(text, offset, limit) == page(ls, k)
            &&& k < ls.len() ==> read_output(text, offset, limit) == page(ls, k)
                + "\n\n[Output truncated. Continue reading with offset="@ + numeral(
                (first + k) as nat,
            ) + ".]"@
        }),
{
    let all = lines_of(text);
    let ls = window(all, offset, limit);
    let k = lines_shown(ls, 0);
    lemma_lines_shown(ls, 0);
    if k < ls.len() {
        assert(read_output(text, offset, limit) =~= page(ls, k)
            + "\n\n[Output truncated. Continue reading with offset="@ + numeral(
            (window_start(offset, all.len()) + k + 1) as nat,
        ) + ".]"@);
    }
}

/// What is said of a file that is no text.
pub proof fn lemma_what_is_said_of_other_files(path: Seq<char>)
    ensures
        not_text(path) == path + " is not a UTF-8 text file"@,
        TEXT_MIME_TYPE@ == "text/plain; charset=utf-8"@,
{
}

} // verus!

//! Cutting long messages into pieces that a channel accepts.

use vstd::prelude::*;
use crate::text::at_most;
use crate::text::chars_of;
use crate::text::concat_all;
use crate::text::lemma_line_length;
use crate::text::line_length;
use crate::text::slice_chars;
use crate::text::string_from;
use crate::text::texts;

verus! {

// ─── lines ───────────────────────────────────────────────────────────────

/// The lines of `s`, each with its line feed; the last may have none.
pub open spec fn lines_of(s: Seq<char>) -> Seq<Seq<char>>
    decreases s.len(),
{
    let n = line_length(s);
    if s.len() == 0 {
        Seq::empty()
    } else if n >= s.len() || n < 0 {
        seq![s]
    } else {
        seq![s.take(n + 1)] + lines_of(s.skip(n + 1))
    }
}

/// The lines of `text`, each with its line feed; the last may have none.
pub fn line_segments(text: &str) -> (r: Vec<String>)
    ensures
        texts(r@) == lines_of(text@),
{
    let chars = chars_of(text);
    let n: usize = chars.len();
    let mut segments: Vec<String> = Vec::new();
    let mut start: usize = 0;
    let mut index: usize = 0;
    assert(text@.skip(0) =~= text@);
    assert(texts(segments@) + lines_of(text@) =~= lines_of(text@));
    while index < n
        invariant
            start <= index <= n == chars@.len(),
            chars@ == text@,
            forall|j: int| start <= j < index ==> #[trigger] text@[j] != '\n',
            lines_of(text@) == texts(segments@) + lines_of(text@.skip(start as int)),
        decreases n - index,
    {
        if chars[index] == '\n' {
            let ghost rest = text@.skip(start as int);
            let ghost k = index - start;
            let ghost before = texts(segments@);
            proof {
                assert forall|i: int| 0 <= i < k implies #[trigger] rest[i] != '\n' by {
                    assert(rest[i] == text@[start + i]);
                }
                lemma_line_length(rest, k);
                assert(rest.skip(k + 1) =~= text@.skip(index + 1));
                assert(rest.take(k + 1) =~= text@.subrange(start as int, index + 1));
            }
            segments.push(string_from(&chars, start, index + 1));
            assert(texts(segments@) =~= before.push(rest.take(k + 1)));
            assert(before + (seq![rest.take(k + 1)] + lines_of(text@.skip(index + 1))) =~= texts(
                segments@,
            ) + lines_of(text@.skip(index + 1)));
            start = index + 1;
        }
        index = index + 1;
    }
    let ghost rest = text@.skip(start as int);
    let ghost before = texts(segments@);
    if start < n {
        proof {
            assert forall|i: int| 0 <= i < rest.len() implies #[trigger] rest[i] != '\n' by {
                assert(rest[i] == text@[start + i]);
            }
            lemma_line_length(rest, rest.len() as int);
            assert(text@.subrange(start as int, n as int) =~= rest);
        }
        segments.push(string_from(&chars, start, n));
        assert(texts(segments@) =~= before + seq![rest]);
    } else {
        assert(rest =~= Seq::<char>::empty());
        assert(before + Seq::<Seq<char>>::empty() =~= before);
    }
    segments
}

/// The first `limit` characters of `value`, and the rest.
pub fn split_at_char_limit<'a>(value: &'a str, limit: usize) -> (r: (&'a str, &'a str))
    ensures
        r.0@ == at_most(value@, limit as int),
        r.1@ == value@.skip(r.0@.len() as int),
{
    let n: usize = value.unicode_len();
    let split: usize = if limit < n {
        limit
    } else {
        n
    };
    assert(value@.subrange(0, split as int) =~= at_most(value@, limit as int));
    assert(value@.subrange(split as int, n as int) =~= value@.skip(split as int));
    (slice_chars(value, 0, split), slice_chars(value, split, n))
}

// ─── chunks ──────────────────────────────────────────────────────────────

/// Whole pieces of `limit` characters from the front of `line`, as long as more
/// than `limit` remain.
pub open spec fn full_cuts(line: Seq<char>, limit: int) -> Seq<Seq<char>>
    decreases line.len(),
{
    if limit <= 0 || line.len() <= limit {
        Seq::empty()
    } else {
        seq![line.take(limit)] + full_cuts(line.skip(limit), limit)
    }
}

/// What `full_cuts` leaves of `line`.
pub open spec fn after_cuts(line: Seq<char>, limit: int) -> Seq<char>
    decreases line.len(),
{
    if limit <= 0 || line.len() <= limit {
        line
    } else {
        after_cuts(line.skip(limit), limit)
    }
}

/// `done`, and `open` behind it where it holds anything.
pub open spec fn flushed(done: Seq<Seq<char>>, open: Seq<char>) -> Seq<Seq<char>> {
    if open.len() > 0 {
        done.push(open)
    } else {
        done
    }
}

/// The chunks of `lines`, packed in order behind the chunks `done` and the chunk
/// `open` that is still being filled. A line that fits goes into the open chunk
/// where there is room, else into a new one; a line longer than a chunk is cut,
/// and its end opens a new chunk.
pub open spec fn packed(
    done: Seq<Seq<char>>,
    open: Seq<char>,
    lines: Seq<Seq<char>>,
    limit: int,
) -> Seq<Seq<char>>
    decreases lines.len(),
{
    if lines.len() == 0 {
        flushed(done, open)
    } else {
        let line = lines[0];
        let rest = lines.skip(1);
        if line.len() > limit {
            packed(
                flushed(done, open) + full_cuts(line, limit),
                after_cuts(line, limit),
                rest,
                limit,
            )
        } else if open.len() + line.len() > limit {
            packed(flushed(done, open), line, rest, limit)
        } else {
            packed(done, open + line, rest, limit)
        }
    }
}

/// The chunks of `text`: itself where it fits, else its lines packed.
pub open spec fn chunks_of(text: Seq<char>, limit: int) -> Seq<Seq<char>> {
    if text.len() <= limit {
        seq![text]
    } else {
        packed(Seq::empty(), Seq::empty(), lines_of(text), limit)
    }
}

proof fn lemma_after_cuts(line: Seq<char>, limit: int)
    requires
        limit > 0,
    ensures
        after_cuts(line, limit).len() <= limit,
        line.len() > 0 ==> after_cuts(line, limit).len() > 0,
        concat_all(full_cuts(line, limit)) + after_cuts(line, limit) == line,
        forall|i: int|
            0 <= i < full_cuts(line, limit).len() ==> (#[trigger] full_cuts(line, limit)[i]).len()
                == limit,
    decreases line.len(),
{
    if line.len() > limit {
        let rest = line.skip(limit);
        lemma_after_cuts(rest, limit);
        lemma_concat_front(line.take(limit), full_cuts(rest, limit));
        assert(line.take(limit) + concat_all(full_cuts(rest, limit)) + after_cuts(rest, limit)
            =~= line.take(limit) + (concat_all(full_cuts(rest, limit)) + after_cuts(rest, limit)));
        assert(line.take(limit) + rest =~= line);
    } else {
        assert(Seq::<char>::empty() + line =~= line);
    }
}

proof fn lemma_concat_front(first: Seq<char>, rest: Seq<Seq<char>>)
    ensures
        concat_all(seq![first] + rest) == first + concat_all(rest),
    decreases rest.len(),
{
    let whole = seq![first] + rest;
    if rest.len() == 0 {
        assert(whole.drop_last() =~= Seq::<Seq<char>>::empty());
        assert(concat_all(whole.drop_last()) =~= Seq::<char>::empty());
        assert(Seq::<char>::empty() + first =~= first + Seq::<char>::empty());
    } else {
        lemma_concat_front(first, rest.drop_last());
        assert(whole.drop_last() =~= seq![first] + rest.drop_last());
        assert(first + concat_all(rest.drop_last()) + rest.last() =~= first + (concat_all(
            rest.drop_last(),
        ) + rest.last()));
    }
}

proof fn lemma_concat_one(only: Seq<char>)
    ensures
        concat_all(seq![only]) == only,
{
    lemma_concat_front(only, Seq::empty());
    assert(seq![only] + Seq::<Seq<char>>::empty() =~= seq![only]);
    assert(only + Seq::<char>::empty() =~= only);
}

proof fn lemma_concat_append(a: Seq<Seq<char>>, b: Seq<Seq<char>>)
    ensures
        concat_all(a + b) == concat_all(a) + concat_all(b),
    decreases b.len(),
{
    if b.len() == 0 {
        assert(a + b =~= a);
        assert(concat_all(a) + Seq::<char>::empty() =~= concat_all(a));
    } else {
        lemma_concat_append(a, b.drop_last());
        assert((a + b).drop_last() =~= a + b.drop_last());
        assert(concat_all(a) + concat_all(b.drop_last()) + b.last() =~= concat_all(a) + (concat_all(
            b.drop_last(),
        ) + b.last()));
    }
}

proof fn lemma_concat_flushed(done: Seq<Seq<char>>, open: Seq<char>)
    ensures
        concat_all(flushed(done, open)) == concat_all(done) + open,
{
    if open.len() > 0 {
        assert(done.push(open).drop_last() =~= done);
    } else {
        assert(concat_all(done) + open =~= concat_all(done));
    }
}

/// The lines of a text make up the text.
pub proof fn lemma_lines_make_text(s: Seq<char>)
    ensures
        concat_all(lines_of(s)) == s,
        forall|i: int| 0 <= i < lines_of(s).len() ==> (#[trigger] lines_of(s)[i]).len() > 0,
    decreases s.len(),
{
    let n = line_length(s);
    if s.len() == 0 {
        assert(s =~= Seq::<char>::empty());
    } else if n >= s.len() || n < 0 {
        lemma_concat_one(s);
    } else {
        lemma_lines_make_text(s.skip(n + 1));
        lemma_concat_front(s.take(n + 1), lines_of(s.skip(n + 1)));
        assert(s.take(n + 1) + s.skip(n + 1) =~= s);
    }
}

/// Whether every chunk holds something, and no more than `limit` characters.
pub open spec fn chunks_fit(chunks: Seq<Seq<char>>, limit: int) -> bool {
    forall|i: int| 0 <= i < chunks.len() ==> 0 < (#[trigger] chunks[i]).len() <= limit
}

proof fn lemma_packed(
    done: Seq<Seq<char>>,
    open: Seq<char>,
    lines: Seq<Seq<char>>,
    limit: int,
)
    requires
        limit > 0,
        chunks_fit(done, limit),
        open.len() <= limit,
        forall|i: int| 0 <= i < lines.len() ==> (#[trigger] lines[i]).len() > 0,
    ensures
        chunks_fit(packed(done, open, lines, limit), limit),
        concat_all(packed(done, open, lines, limit)) == concat_all(done) + open + concat_all(lines),
    decreases lines.len(),
{
    lemma_concat_flushed(done, open);
    if lines.len() == 0 {
        assert(concat_all(done) + open + Seq::<char>::empty() =~= concat_all(done) + open);
    } else {
        let line = lines[0];
        let rest = lines.skip(1);
        assert(seq![line] + rest =~= lines);
        lemma_concat_front(line, rest);
        if line.len() > limit {
            lemma_after_cuts(line, limit);
            lemma_concat_append(flushed(done, open), full_cuts(line, limit));
            lemma_packed(
                flushed(done, open) + full_cuts(line, limit),
                after_cuts(line, limit),
                rest,
                limit,
            );
            assert(concat_all(done) + open + concat_all(full_cuts(line, limit)) + after_cuts(
                line,
                limit,
            ) + concat_all(rest) =~= concat_all(done) + open + ((concat_all(full_cuts(line, limit))
                + after_cuts(line, limit)) + concat_all(rest)));
        } else if open.len() + line.len() > limit {
            lemma_packed(flushed(done, open), line, rest, limit);
            assert(concat_all(done) + open + line + concat_all(rest) =~= concat_all(done) + open + (
            line + concat_all(rest)));
        } else {
            lemma_packed(done, open + line, rest, limit);
            assert(concat_all(done) + (open + line) + concat_all(rest) =~= concat_all(done) + open
                + (line + concat_all(rest)));
        }
    }
}

/// Chunks joined make up the message, none is longer than the limit, and none is
/// empty but that of an empty message.
pub proof fn lemma_chunks_make_text(text: Seq<char>, limit: int)
    requires
        limit > 0,
    ensures
        concat_all(chunks_of(text, limit)) == text,
        text.len() > 0 ==> chunks_fit(chunks_of(text, limit), limit),
{
    if text.len() <= limit {
        lemma_concat_one(text);
    } else {
        lemma_lines_make_text(text);
        lemma_packed(Seq::empty(), Seq::empty(), lines_of(text), limit);
        assert(Seq::<char>::empty() + Seq::<char>::empty() + text =~= text);
    }
}

/// Whether `s` ends with a line feed.
pub open spec fn ends_line(s: Seq<char>) -> bool {
    s.len() > 0 && s.last() == '\n'
}

/// Whether all of `parts` but the last end with a line feed.
pub open spec fn cut_at_lines(parts: Seq<Seq<char>>) -> bool {
    forall|i: int| 0 <= i < parts.len() - 1 ==> ends_line(#[trigger] parts[i])
}

proof fn lemma_line_feed(s: Seq<char>)
    ensures
        0 <= line_length(s) <= s.len(),
        line_length(s) < s.len() ==> s[line_length(s)] == '\n',
    decreases s.len(),
{
    if s.len() > 0 && s[0] != '\n' {
        lemma_line_feed(s.skip(1));
    }
}

proof fn lemma_lines_end(s: Seq<char>)
    ensures
        cut_at_lines(lines_of(s)),
    decreases s.len(),
{
    let n = line_length(s);
    lemma_line_feed(s);
    if s.len() > 0 && n < s.len() {
        let rest = lines_of(s.skip(n + 1));
        lemma_lines_end(s.skip(n + 1));
        assert forall|i: int| 0 <= i < lines_of(s).len() - 1 implies ends_line(
            #[trigger] lines_of(s)[i],
        ) by {
            if i > 0 {
                assert(ends_line(rest[i - 1]));
            } else {
                assert(s.take(n + 1).last() == s[n]);
            }
        }
    }
}

proof fn lemma_packed_at_lines(
    done: Seq<Seq<char>>,
    open: Seq<char>,
    lines: Seq<Seq<char>>,
    limit: int,
)
    requires
        forall|i: int| 0 <= i < done.len() ==> ends_line(#[trigger] done[i]),
        open.len() == 0 || ends_line(open) || lines.len() == 0,
        cut_at_lines(lines),
        chunks_fit(lines, limit),
    ensures
        cut_at_lines(packed(done, open, lines, limit)),
    decreases lines.len(),
{
    if lines.len() > 0 {
        let line = lines[0];
        let rest = lines.skip(1);
        assert(0 < lines[0].len() <= limit);
        assert forall|i: int| 0 <= i < rest.len() implies 0 < (#[trigger] rest[i]).len() <= limit by {
            assert(rest[i] == lines[i + 1]);
        }
        assert forall|i: int| 0 <= i < rest.len() - 1 implies ends_line(#[trigger] rest[i]) by {
            assert(rest[i] == lines[i + 1]);
        }
        if rest.len() > 0 {
            assert(ends_line(lines[0]));
            assert((open + line).last() == line.last());
        }
        if open.len() + line.len() > limit {
            lemma_packed_at_lines(flushed(done, open), line, rest, limit);
        } else {
            lemma_packed_at_lines(done, open + line, rest, limit);
        }
    }
}

/// Where every line fits into a chunk, chunks are cut between lines only.
pub proof fn lemma_chunks_cut_at_lines(text: Seq<char>, limit: int)
    requires
        limit > 0,
        forall|i: int| 0 <= i < lines_of(text).len() ==> (#[trigger] lines_of(text)[i]).len()
            <= limit,
    ensures
        cut_at_lines(chunks_of(text, limit)),
{
    lemma_lines_end(text);
    lemma_lines_make_text(text);
    if text.len() > limit {
        lemma_packed_at_lines(Seq::empty(), Seq::empty(), lines_of(text), limit);
    }
}

/// How many characters the first `k` of `parts` hold.
pub open spec fn front_length(parts: Seq<Seq<char>>, k: int) -> int {
    concat_all(parts.take(k)).len() as int
}

/// Whether the first `k` of `lines` end at position `p`.
pub open spec fn at_line_end(lines: Seq<Seq<char>>, k: int, p: int) -> bool {
    0 <= k <= lines.len() && p == front_length(lines, k)
}

/// Whether position `p` lies strictly inside the `k`-th of `lines`, and that line
/// is longer than `limit`.
pub open spec fn inside_long_line(lines: Seq<Seq<char>>, limit: int, k: int, p: int) -> bool {
    &&& 0 <= k < lines.len()
    &&& lines[k].len() > limit
    &&& front_length(lines, k) < p < front_length(lines, k + 1)
}

/// Whether a text with these lines may be cut at position `p`: at a line end, or
/// inside a line that does not fit into a chunk.
pub open spec fn may_cut(lines: Seq<Seq<char>>, limit: int, p: int) -> bool {
    ||| exists|k: int| at_line_end(lines, k, p)
    ||| exists|k: int| inside_long_line(lines, limit, k, p)
}

/// Whether `chunks` begin and end only where a text with these lines may be cut.
pub open spec fn cut_where_allowed(
    chunks: Seq<Seq<char>>,
    lines: Seq<Seq<char>>,
    limit: int,
) -> bool {
    forall|c: int|
        0 <= c <= chunks.len() ==> may_cut(lines, limit, #[trigger] front_length(chunks, c))
}

proof fn lemma_front_step(parts: Seq<Seq<char>>, k: int)
    requires
        0 <= k < parts.len(),
    ensures
        front_length(parts, k + 1) == front_length(parts, k) + parts[k].len(),
{
    assert(parts.take(k + 1).drop_last() =~= parts.take(k));
}

proof fn lemma_front_append(a: Seq<Seq<char>>, b: Seq<Seq<char>>, c: int)
    requires
        0 <= c <= b.len(),
    ensures
        front_length(a + b, a.len() + c) == concat_all(a).len() + front_length(b, c),
{
    assert((a + b).take(a.len() + c) =~= a + b.take(c));
    lemma_concat_append(a, b.take(c));
}

proof fn lemma_flushed_where_allowed(
    done: Seq<Seq<char>>,
    open: Seq<char>,
    lines: Seq<Seq<char>>,
    j: int,
    limit: int,
)
    requires
        0 <= j <= lines.len(),
        concat_all(done).len() + open.len() == front_length(lines, j),
        cut_where_allowed(done, lines, limit),
    ensures
        cut_where_allowed(flushed(done, open), lines, limit),
        concat_all(flushed(done, open)).len() == front_length(lines, j),
{
    let all = flushed(done, open);
    lemma_concat_flushed(done, open);
    assert forall|c: int| 0 <= c <= all.len() implies may_cut(
        lines,
        limit,
        #[trigger] front_length(all, c),
    ) by {
        if c <= done.len() {
            assert(all.take(c) =~= done.take(c));
            assert(may_cut(lines, limit, front_length(done, c)));
        } else {
            assert(all.take(c) =~= all);
            assert(at_line_end(lines, j, front_length(all, c)));
        }
    }
}

proof fn lemma_cuts_where_allowed(
    before: Seq<Seq<char>>,
    lines: Seq<Seq<char>>,
    j: int,
    limit: int,
)
    requires
        limit > 0,
        0 <= j < lines.len(),
        lines[j].len() > limit,
        concat_all(before).len() == front_length(lines, j),
        cut_where_allowed(before, lines, limit),
    ensures
        cut_where_allowed(before + full_cuts(lines[j], limit), lines, limit),
{
    let cuts = full_cuts(lines[j], limit);
    let all = before + cuts;
    lemma_after_cuts(lines[j], limit);
    lemma_front_step(lines, j);
    assert forall|c: int| 0 <= c <= all.len() implies may_cut(
        lines,
        limit,
        #[trigger] front_length(all, c),
    ) by {
        if c <= before.len() {
            assert(all.take(c) =~= before.take(c));
            assert(may_cut(lines, limit, front_length(before, c)));
        } else {
            let i = c - before.len();
            lemma_front_append(before, cuts, i);
            lemma_front_step(cuts, i - 1);
            assert(cuts.take(i) + cuts.skip(i) =~= cuts);
            lemma_concat_append(cuts.take(i), cuts.skip(i));
            assert(inside_long_line(lines, limit, j, front_length(all, c)));
        }
    }
}

proof fn lemma_packed_where_allowed(
    done: Seq<Seq<char>>,
    open: Seq<char>,
    lines: Seq<Seq<char>>,
    j: int,
    limit: int,
)
    requires
        limit > 0,
        0 <= j <= lines.len(),
        concat_all(done).len() + open.len() == front_length(lines, j),
        cut_where_allowed(done, lines, limit),
    ensures
        cut_where_allowed(packed(done, open, lines.skip(j), limit), lines, limit),
    decreases lines.len() - j,
{
    let behind = flushed(done, open);
    lemma_flushed_where_allowed(done, open, lines, j, limit);
    if j < lines.len() {
        let line = lines[j];
        assert(lines.skip(j)[0] == line);
        assert(lines.skip(j).skip(1) =~= lines.skip(j + 1));
        lemma_front_step(lines, j);
        if line.len() > limit {
            lemma_cuts_where_allowed(behind, lines, j, limit);
            lemma_after_cuts(line, limit);
            lemma_concat_append(behind, full_cuts(line, limit));
            lemma_packed_where_allowed(
                behind + full_cuts(line, limit),
                after_cuts(line, limit),
                lines,
                j + 1,
                limit,
            );
        } else if open.len() + line.len() > limit {
            lemma_packed_where_allowed(behind, line, lines, j + 1, limit);
        } else {
            lemma_packed_where_allowed(done, open + line, lines, j + 1, limit);
        }
    }
}

/// Every text is cut at line ends, or strictly inside lines that are longer than
/// the limit. A line that fits into a chunk is never cut.
pub proof fn lemma_only_long_lines_are_cut(text: Seq<char>, limit: int)
    requires
        limit > 0,
    ensures
        forall|c: int|
            0 <= c <= chunks_of(text, limit).len() ==> may_cut(
                lines_of(text),
                limit,
                #[trigger] front_length(chunks_of(text, limit), c),
            ),
{
    let lines = lines_of(text);
    let none = Seq::<Seq<char>>::empty();
    assert(none.take(0) =~= none);
    assert(lines.take(0) =~= none);
    assert forall|c: int| 0 <= c <= none.len() implies may_cut(
        lines,
        limit,
        #[trigger] front_length(none, c),
    ) by {
        assert(at_line_end(lines, 0, front_length(none, c)));
    }
    if text.len() <= limit {
        lemma_lines_make_text(text);
        assert(lines.take(lines.len() as int) =~= lines);
        assert forall|c: int| 0 <= c <= 1 implies may_cut(
            lines,
            limit,
            #[trigger] front_length(seq![text], c),
        ) by {
            if c == 0 {
                assert(seq![text].take(0) =~= none);
                assert(at_line_end(lines, 0, front_length(seq![text], c)));
            } else {
                assert(seq![text].take(1) =~= seq![text]);
                lemma_concat_one(text);
                assert(at_line_end(lines, lines.len() as int, front_length(seq![text], c)));
            }
        }
    } else {
        assert(lines.skip(0) =~= lines);
        lemma_packed_where_allowed(none, Seq::empty(), lines, 0, limit);
    }
}

/// Moves `open` behind `chunks` where it holds anything.
fn flush(chunks: &mut Vec<String>, open: &mut String)
    ensures
        texts(final(chunks)@) == flushed(texts(old(chunks)@), old(open)@),
        final(open)@ == Seq::<char>::empty(),
{
    let mut full = String::new();
    std::mem::swap(&mut full, open);
    let ghost before = texts(chunks@);
    if !full.as_str().is_empty() {
        chunks.push(full);
        assert(texts(chunks@) =~= before.push(full@));
    }
}

/// Cuts `text` into pieces of at most `limit` characters, at line ends where
/// that is possible.
pub fn split_message(text: &str, limit: usize) -> (r: Vec<String>)
    requires
        limit > 0 || text@.len() == 0,
    ensures
        texts(r@) == chunks_of(text@, limit as int),
        concat_all(texts(r@)) == text@,
        text@.len() > 0 ==> chunks_fit(texts(r@), limit as int),
{
    if text.unicode_len() <= limit {
        let mut whole: Vec<String> = Vec::new();
        whole.push(text.to_owned());
        assert(texts(whole@) =~= seq![text@]);
        proof {
            lemma_concat_one(text@);
        }
        return whole;
    }
    let mut chunks: Vec<String> = Vec::new();
    let mut open = String::new();
    let segments = line_segments(text);
    let mut i: usize = 0;
    assert(texts(chunks@) =~= Seq::<Seq<char>>::empty());
    assert(lines_of(text@).skip(0) =~= lines_of(text@));
    while i < segments.len()
        invariant
            i <= segments@.len(),
            limit > 0,
            texts(segments@) == lines_of(text@),
            open@.len() <= limit,
            packed(texts(chunks@), open@, lines_of(text@).skip(i as int), limit as int) == packed(
                Seq::empty(),
                Seq::empty(),
                lines_of(text@),
                limit as int,
            ),
        decreases segments@.len() - i,
    {
        let ghost rest = lines_of(text@).skip(i as int);
        let segment = segments[i].as_str();
        let length: usize = segment.unicode_len();
        assert(rest[0] == segment@);
        assert(rest.skip(1) =~= lines_of(text@).skip(i + 1));
        if length > limit {
            flush(&mut chunks, &mut open);
            open = cut(segment, limit, &mut chunks);
        } else {
            if open.as_str().unicode_len() > limit - length {
                flush(&mut chunks, &mut open);
            }
            let ghost before = open@;
            open.append(segment);
            assert(Seq::<char>::empty() + segment@ =~= segment@);
        }
        i = i + 1;
    }
    assert(lines_of(text@).skip(i as int) =~= Seq::<Seq<char>>::empty());
    flush(&mut chunks, &mut open);
    proof {
        lemma_chunks_make_text(text@, limit as int);
    }
    chunks
}

/// Cuts pieces of `limit` characters from the front of `segment` into `chunks`
/// as long as more than `limit` remain, and hands back what remains.
fn cut(segment: &str, limit: usize, chunks: &mut Vec<String>) -> (r: String)
    requires
        limit > 0,
    ensures
        texts(final(chunks)@) == texts(old(chunks)@) + full_cuts(segment@, limit as int),
        r@ == after_cuts(segment@, limit as int),
        r@.len() <= limit,
{
    let mut rest = segment;
    assert(texts(chunks@) + full_cuts(segment@, limit as int) =~= texts(chunks@) + full_cuts(
        rest@,
        limit as int,
    ));
    while rest.unicode_len() > limit
        invariant
            limit > 0,
            texts(old(chunks)@) + full_cuts(segment@, limit as int) == texts(chunks@) + full_cuts(
                rest@,
                limit as int,
            ),
            after_cuts(rest@, limit as int) == after_cuts(segment@, limit as int),
        decreases rest@.len(),
    {
        let (head, tail) = split_at_char_limit(rest, limit);
        let ghost before = texts(chunks@);
        chunks.push(head.to_owned());
        assert(texts(chunks@) =~= before.push(head@));
        assert(before + (seq![head@] + full_cuts(tail@, limit as int)) =~= texts(chunks@)
            + full_cuts(tail@, limit as int));
        rest = tail;
    }
    assert(texts(chunks@) + Seq::<Seq<char>>::empty() =~= texts(chunks@));
    rest.to_owned()
}

/// Whether no two neighbours of `chunks` would fit into one chunk.
pub open spec fn neighbours_exceed(chunks: Seq<Seq<char>>, limit: int) -> bool {
    forall|i: int|
        0 <= i < chunks.len() - 1 ==> (#[trigger] chunks[i]).len() + chunks[i + 1].len() > limit
}

proof fn lemma_exceed_push(chunks: Seq<Seq<char>>, chunk: Seq<char>, limit: int)
    requires
        neighbours_exceed(chunks, limit),
        chunks.len() > 0 ==> chunks.last().len() + chunk.len() > limit,
    ensures
        neighbours_exceed(chunks.push(chunk), limit),
{
    let all = chunks.push(chunk);
    assert forall|i: int| 0 <= i < all.len() - 1 implies (#[trigger] all[i]).len() + all[i
        + 1].len() > limit by {
        if i < chunks.len() - 1 {
            assert(all[i] == chunks[i] && all[i + 1] == chunks[i + 1]);
        }
    }
}

proof fn lemma_exceed_cuts(before: Seq<Seq<char>>, line: Seq<char>, limit: int)
    requires
        limit > 0,
        chunks_fit(before, limit),
        neighbours_exceed(before, limit),
        line.len() > limit,
    ensures
        neighbours_exceed(before + full_cuts(line, limit), limit),
        (before + full_cuts(line, limit)).len() > 0,
        (before + full_cuts(line, limit)).last().len() == limit,
        chunks_fit(before + full_cuts(line, limit), limit),
    decreases line.len(),
{
    let head = line.take(limit);
    let rest = line.skip(limit);
    if before.len() > 0 {
        assert(before[before.len() - 1].len() > 0);
    }
    lemma_exceed_push(before, head, limit);
    let more = before.push(head);
    assert forall|i: int| 0 <= i < more.len() implies 0 < (#[trigger] more[i]).len() <= limit by {
        if i < before.len() {
            assert(more[i] == before[i]);
        }
    }
    assert(before + (seq![head] + full_cuts(rest, limit)) =~= more + full_cuts(rest, limit));
    if rest.len() > limit {
        lemma_exceed_cuts(more, rest, limit);
    } else {
        assert(more + Seq::<Seq<char>>::empty() =~= more);
    }
}

proof fn lemma_packed_exceed(
    done: Seq<Seq<char>>,
    open: Seq<char>,
    lines: Seq<Seq<char>>,
    limit: int,
)
    requires
        limit > 0,
        chunks_fit(done, limit),
        neighbours_exceed(done, limit),
        open.len() <= limit,
        done.len() > 0 ==> open.len() > 0 && done.last().len() + open.len() > limit,
        forall|i: int| 0 <= i < lines.len() ==> (#[trigger] lines[i]).len() > 0,
    ensures
        neighbours_exceed(packed(done, open, lines, limit), limit),
    decreases lines.len(),
{
    let behind = flushed(done, open);
    if open.len() > 0 {
        lemma_exceed_push(done, open, limit);
        assert forall|i: int| 0 <= i < behind.len() implies 0 < (#[trigger] behind[i]).len()
            <= limit by {
            if i < done.len() {
                assert(behind[i] == done[i]);
            }
        }
    }
    if lines.len() > 0 {
        let line = lines[0];
        let rest = lines.skip(1);
        if line.len() > limit {
            lemma_exceed_cuts(behind, line, limit);
            lemma_after_cuts(line, limit);
            lemma_packed_exceed(
                behind + full_cuts(line, limit),
                after_cuts(line, limit),
                rest,
                limit,
            );
        } else if open.len() + line.len() > limit {
            lemma_packed_exceed(behind, line, rest, limit);
        } else {
            lemma_packed_exceed(done, open + line, rest, limit);
        }
    }
}

/// No more pieces are made than are needed: a text that fits is one piece, and no
/// two neighbouring pieces of a longer one would fit into one.
pub proof fn lemma_chunks_are_filled(text: Seq<char>, limit: int)
    requires
        limit > 0,
    ensures
        text.len() <= limit ==> chunks_of(text, limit) == seq![text],
        forall|i: int|
            0 <= i < chunks_of(text, limit).len() - 1 ==> (#[trigger] chunks_of(
                text,
                limit,
            )[i]).len() + chunks_of(text, limit)[i + 1].len() > limit,
{
    if text.len() > limit {
        lemma_lines_make_text(text);
        lemma_packed_exceed(Seq::empty(), Seq::empty(), lines_of(text), limit);
        assert(neighbours_exceed(chunks_of(text, limit), limit));
    }
}

/// Lines are lines: each of them but the last ends with a line feed, and none holds
/// one before its end.
pub proof fn lemma_lines(s: Seq<char>)
    ensures
        forall|i: int|
            0 <= i < lines_of(s).len() - 1 ==> (#[trigger] lines_of(s)[i]).last() == '\n',
        forall|i: int|
            0 <= i < lines_of(s).len() ==> !(#[trigger] lines_of(s)[i]).drop_last().contains(
                '\n',
            ),
    decreases s.len(),
{
    lemma_lines_end(s);
    assert forall|i: int| 0 <= i < lines_of(s).len() - 1 implies (#[trigger] lines_of(s)[i]).last()
        == '\n' by {
        assert(ends_line(lines_of(s)[i]));
    }
    let n = line_length(s);
    lemma_line_feed(s);
    if s.len() > 0 {
        lemma_no_feed_before(s);
        let first = if n >= s.len() {
            s
        } else {
            s.take(n + 1)
        };
        assert forall|k: int| 0 <= k < first.len() - 1 implies #[trigger] first.drop_last()[k]
            != '\n' by {
            assert(s[k] != '\n');
        }
        if n < s.len() {
            let rest = lines_of(s.skip(n + 1));
            lemma_lines(s.skip(n + 1));
            assert forall|i: int| 0 <= i < lines_of(s).len() implies !(
            #[trigger] lines_of(s)[i]).drop_last().contains('\n') by {
                if i > 0 {
                    assert(lines_of(s)[i] == rest[i - 1]);
                }
            }
        }
    }
}

proof fn lemma_no_feed_before(s: Seq<char>)
    ensures
        forall|k: int| 0 <= k < line_length(s) ==> #[trigger] s[k] != '\n',
    decreases s.len(),
{
    if s.len() > 0 && s[0] != '\n' {
        let rest = s.skip(1);
        lemma_no_feed_before(rest);
        lemma_line_feed(rest);
        assert forall|k: int| 0 <= k < line_length(s) implies #[trigger] s[k] != '\n' by {
            if k > 0 {
                assert(rest[k - 1] == s[k]);
            }
        }
    }
}

} // verus!

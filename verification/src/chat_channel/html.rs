//! The HTML subset that chat messages are written in.

use vstd::prelude::*;
use crate::text::chars_of;
use crate::text::lemma_replace;
use crate::text::lemma_replace_copies;
use crate::text::occurs_at;
use crate::text::replace;
use crate::text::replace_all;

verus! {

// ─── escaping ────────────────────────────────────────────────────────────

/// How one character is written in HTML text.
pub open spec fn escaped_char(c: char) -> Seq<char> {
    if c == '&' {
        "&amp;"@
    } else if c == '<' {
        "&lt;"@
    } else if c == '>' {
        "&gt;"@
    } else if c == '"' {
        "&quot;"@
    } else if c == '\'' {
        "&#39;"@
    } else {
        seq![c]
    }
}

/// `s` written as HTML text.
pub open spec fn escaped(s: Seq<char>) -> Seq<char>
    decreases s.len(),
{
    if s.len() == 0 {
        Seq::empty()
    } else {
        escaped_char(s[0]) + escaped(s.skip(1))
    }
}

/// Writes `value` as HTML text.
pub fn html_escape_text(value: &str) -> (r: String)
    ensures
        r@ == escaped(value@),
{
    let chars = chars_of(value);
    let n: usize = chars.len();
    let mut out = String::new();
    let mut i: usize = 0;
    assert(value@.skip(0) =~= value@);
    while i < n
        invariant
            i <= n == chars@.len(),
            chars@ == value@,
            escaped(value@) == out@ + escaped(value@.skip(i as int)),
        decreases n - i,
    {
        let c: char = chars[i];
        let ghost before = out@;
        let ghost rest = escaped(value@.skip(i + 1));
        if c == '&' {
            out.append("&amp;");
        } else if c == '<' {
            out.append("&lt;");
        } else if c == '>' {
            out.append("&gt;");
        } else if c == '"' {
            out.append("&quot;");
        } else if c == '\'' {
            out.append("&#39;");
        } else {
            out.push(c);
        }
        assert(out@ =~= before + escaped_char(c));
        assert(value@.skip(i as int).skip(1) =~= value@.skip(i + 1));
        assert(before + (escaped_char(c) + rest) =~= out@ + rest);
        i = i + 1;
    }
    assert(value@.skip(i as int) =~= Seq::<char>::empty());
    assert(out@ + Seq::<char>::empty() =~= out@);
    out
}

// ─── unescaping ──────────────────────────────────────────────────────────

/// `s` with the named and numbered references of HTML text read, the ampersand
/// last.
pub open spec fn unescaped(s: Seq<char>) -> Seq<char> {
    let a = replace_all(s, "&lt;"@, "<"@);
    let b = replace_all(a, "&gt;"@, ">"@);
    let c = replace_all(b, "&quot;"@, "\""@);
    let d = replace_all(c, "&#39;"@, "'"@);
    let e = replace_all(d, "&apos;"@, "'"@);
    replace_all(e, "&amp;"@, "&"@)
}

/// Reads the references of HTML text, the ampersand last.
pub fn html_unescape(value: &str) -> (r: String)
    ensures
        r@ == unescaped(value@),
{
    proof {
        reveal_strlit("&lt;");
        reveal_strlit("&gt;");
        reveal_strlit("&quot;");
        reveal_strlit("&#39;");
        reveal_strlit("&apos;");
        reveal_strlit("&amp;");
    }
    let a = replace(value, "&lt;", "<");
    let b = replace(a.as_str(), "&gt;", ">");
    let c = replace(b.as_str(), "&quot;", "\"");
    let d = replace(c.as_str(), "&#39;", "'");
    let e = replace(d.as_str(), "&apos;", "'");
    replace(e.as_str(), "&amp;", "&")
}

// ─── tags ────────────────────────────────────────────────────────────────

/// `s` without its tags: what stands between `<` and the next `>`, and the
/// brackets themselves. `in_tag` says whether `s` begins inside one.
pub open spec fn stripped(s: Seq<char>, in_tag: bool) -> Seq<char>
    decreases s.len(),
{
    if s.len() == 0 {
        Seq::empty()
    } else if s[0] == '<' {
        stripped(s.skip(1), true)
    } else if s[0] == '>' {
        stripped(s.skip(1), false)
    } else if in_tag {
        stripped(s.skip(1), true)
    } else {
        seq![s[0]] + stripped(s.skip(1), false)
    }
}

/// Removes the tags of `value`.
pub fn strip_html_tags(value: &str) -> (r: String)
    ensures
        r@ == stripped(value@, false),
{
    let chars = chars_of(value);
    let n: usize = chars.len();
    let mut output = String::new();
    let mut in_tag = false;
    let mut i: usize = 0;
    assert(value@.skip(0) =~= value@);
    while i < n
        invariant
            i <= n == chars@.len(),
            chars@ == value@,
            stripped(value@, false) == output@ + stripped(value@.skip(i as int), in_tag),
        decreases n - i,
    {
        let c: char = chars[i];
        let ghost before = output@;
        assert(value@.skip(i as int).skip(1) =~= value@.skip(i + 1));
        if c == '<' {
            in_tag = true;
        } else if c == '>' {
            in_tag = false;
        } else if !in_tag {
            output.push(c);
            assert(before + (seq![c] + stripped(value@.skip(i + 1), false)) =~= output@ + stripped(
                value@.skip(i + 1),
                false,
            ));
        }
        i = i + 1;
    }
    assert(value@.skip(i as int) =~= Seq::<char>::empty());
    assert(output@ + Seq::<char>::empty() =~= output@);
    output
}

/// The plain text of a message: references read, tags removed, references read
/// once more.
pub open spec fn plain_text(s: Seq<char>) -> Seq<char> {
    unescaped(stripped(unescaped(s), false))
}

/// The plain text of the HTML `value`.
pub fn html_to_text(value: &str) -> (r: String)
    ensures
        r@ == plain_text(value@),
{
    let once = html_unescape(value);
    let bare = strip_html_tags(once.as_str());
    html_unescape(bare.as_str())
}

// ─── laws ────────────────────────────────────────────────────────────────

/// A character reference: from `&` to `;`, neither inside.
spec fn is_reference(p: Seq<char>) -> bool {
    &&& p.len() >= 2
    &&& p[0] == '&'
    &&& p.last() == ';'
    &&& forall|i: int| 0 < i < p.len() ==> #[trigger] p[i] != '&'
    &&& forall|i: int| 0 <= i < p.len() - 1 ==> #[trigger] p[i] != ';'
}

/// How a character of escaped text reads after the first `k` replacements.
spec fn stage_char(k: int, c: char) -> Seq<char> {
    if (c == '<' && k >= 1) || (c == '>' && k >= 2) || (c == '"' && k >= 3) || (c == '\'' && k >= 4)
        || (c == '&' && k >= 6) {
        seq![c]
    } else {
        escaped_char(c)
    }
}

spec fn stage(k: int, s: Seq<char>) -> Seq<char>
    decreases s.len(),
{
    if s.len() == 0 {
        Seq::empty()
    } else {
        stage_char(k, s[0]) + stage(k, s.skip(1))
    }
}

/// Text in front of which the pattern never starts is copied.
proof fn lemma_copied(piece: Seq<char>, rest: Seq<char>, pat: Seq<char>, to: Seq<char>)
    requires
        pat.len() > 0,
        forall|i: int| 0 <= i < piece.len() ==> !occurs_at(piece + rest, pat, i),
    ensures
        replace_all(piece + rest, pat, to) == piece + replace_all(rest, pat, to),
{
    lemma_replace_copies(piece, rest, pat, to);
}

/// A reference never starts inside another piece.
proof fn lemma_no_start(piece: Seq<char>, rest: Seq<char>, pat: Seq<char>)
    requires
        is_reference(pat),
        piece != pat,
        is_reference(piece) || (piece.len() == 1 && piece[0] != '&'),
    ensures
        forall|i: int| 0 <= i < piece.len() ==> !occurs_at(piece + rest, pat, i),
{
    let whole = piece + rest;
    assert forall|i: int| 0 <= i < piece.len() implies !occurs_at(whole, pat, i) by {
        if occurs_at(whole, pat, i) {
            let found = whole.subrange(i, i + pat.len());
            assert(found[0] == whole[i]);
            assert(whole[i] == piece[i]);
            assert(pat[0] == '&');
            if i > 0 {
                assert(piece[i] != '&');
            } else if !is_reference(piece) {
                assert(piece[0] != '&');
            } else {
                if pat.len() < piece.len() {
                    assert(found[pat.len() - 1] == piece[pat.len() - 1]);
                    assert(pat.last() == ';');
                } else if piece.len() < pat.len() {
                    assert(found[piece.len() - 1] == piece[piece.len() - 1]);
                    assert(piece.last() == ';');
                } else {
                    assert(pat =~= piece) by {
                        assert forall|j: int| 0 <= j < pat.len() implies pat[j] == piece[j] by {
                            assert(found[j] == whole[j]);
                        }
                    }
                }
            }
        }
    }
}

proof fn lemma_references()
    ensures
        is_reference("&amp;"@),
        is_reference("&lt;"@),
        is_reference("&gt;"@),
        is_reference("&quot;"@),
        is_reference("&#39;"@),
        is_reference("&apos;"@),
        "&amp;"@.len() == 5,
        "&lt;"@.len() == 4,
        "&gt;"@.len() == 4,
        "&quot;"@.len() == 6,
        "&#39;"@.len() == 5,
        "&apos;"@.len() == 6,
        "&amp;"@[1] == 'a',
        "&amp;"@[2] == 'm',
        "&lt;"@[1] == 'l',
        "&gt;"@[1] == 'g',
        "&quot;"@[1] == 'q',
        "&#39;"@[1] == '#',
        "&apos;"@[1] == 'a',
        "&apos;"@[2] == 'p',
        "<"@ == seq!['<'],
        ">"@ == seq!['>'],
        "\""@ == seq!['"'],
        "'"@ == seq!['\''],
        "&"@ == seq!['&'],
{
    reveal_strlit("&lt;");
    reveal_strlit("&gt;");
    reveal_strlit("&quot;");
    reveal_strlit("&#39;");
    reveal_strlit("&apos;");
    reveal_strlit("&amp;");
    reveal_strlit("<");
    reveal_strlit(">");
    reveal_strlit("\"");
    reveal_strlit("'");
    reveal_strlit("&");
    assert("<"@ =~= seq!['<']);
    assert(">"@ =~= seq!['>']);
    assert("\""@ =~= seq!['"']);
    assert("'"@ =~= seq!['\'']);
    assert("&"@ =~= seq!['&']);
}

spec fn stage_pattern(k: int) -> Seq<char> {
    if k == 0 {
        "&lt;"@
    } else if k == 1 {
        "&gt;"@
    } else if k == 2 {
        "&quot;"@
    } else if k == 3 {
        "&#39;"@
    } else if k == 4 {
        "&apos;"@
    } else {
        "&amp;"@
    }
}

spec fn stage_result(k: int) -> Seq<char> {
    if k == 0 {
        "<"@
    } else if k == 1 {
        ">"@
    } else if k == 2 {
        "\""@
    } else if k == 3 || k == 4 {
        "'"@
    } else {
        "&"@
    }
}

/// One replacement moves escaped text from one stage to the next.
proof fn lemma_stage(k: int, s: Seq<char>)
    requires
        0 <= k < 6,
    ensures
        replace_all(stage(k, s), stage_pattern(k), stage_result(k)) == stage(k + 1, s),
    decreases s.len(),
{
    let pat = stage_pattern(k);
    let to = stage_result(k);
    if s.len() > 0 {
        lemma_references();
        lemma_stage(k, s.skip(1));
        let c = s[0];
        let piece = stage_char(k, c);
        let rest = stage(k, s.skip(1));
        let whole = piece + rest;
        if piece == pat {
            assert(whole.subrange(0, pat.len() as int) =~= pat);
            assert(occurs_at(whole, pat, 0));
            assert(whole.skip(pat.len() as int) =~= rest);
            assert(stage_char(k + 1, c) == to);
        } else {
            lemma_no_start(piece, rest, pat);
            lemma_copied(piece, rest, pat, to);
            assert(stage_char(k + 1, c) == piece);
        }
    }
}

proof fn lemma_stage_ends(s: Seq<char>)
    ensures
        stage(0, s) == escaped(s),
        stage(6, s) == s,
    decreases s.len(),
{
    if s.len() > 0 {
        lemma_stage_ends(s.skip(1));
        assert(seq![s[0]] + s.skip(1) =~= s);
    } else {
        assert(s =~= Seq::<char>::empty());
    }
}

/// Reading the references of escaped text gives the text back.
pub proof fn lemma_unescape_undoes_escape(s: Seq<char>)
    ensures
        unescaped(escaped(s)) == s,
{
    lemma_stage_ends(s);
    lemma_stage(0, s);
    lemma_stage(1, s);
    lemma_stage(2, s);
    lemma_stage(3, s);
    lemma_stage(4, s);
    lemma_stage(5, s);
}

/// Escaped text holds no angle bracket and no quotation mark: nothing in it can
/// be taken for markup.
pub proof fn lemma_escaped_is_inert(s: Seq<char>)
    ensures
        !escaped(s).contains('<'),
        !escaped(s).contains('>'),
        !escaped(s).contains('"'),
        !escaped(s).contains('\''),
    decreases s.len(),
{
    if s.len() > 0 {
        lemma_escaped_is_inert(s.skip(1));
        reveal_strlit("&lt;");
        reveal_strlit("&gt;");
        reveal_strlit("&quot;");
        reveal_strlit("&#39;");
        reveal_strlit("&amp;");
        let piece = escaped_char(s[0]);
        let rest = escaped(s.skip(1));
        assert forall|i: int| 0 <= i < (piece + rest).len() implies ({
            let c = #[trigger] (piece + rest)[i];
            c != '<' && c != '>' && c != '"' && c != '\''
        }) by {
            if i >= piece.len() {
                assert(rest.contains(rest[i - piece.len()]));
            }
        }
    }
}

/// Text without its tags holds no angle bracket.
pub proof fn lemma_stripped_has_no_brackets(s: Seq<char>, in_tag: bool)
    ensures
        !stripped(s, in_tag).contains('<'),
        !stripped(s, in_tag).contains('>'),
    decreases s.len(),
{
    if s.len() > 0 {
        let rest = s.skip(1);
        lemma_stripped_has_no_brackets(rest, true);
        lemma_stripped_has_no_brackets(rest, false);
        if s[0] != '<' && s[0] != '>' && !in_tag {
            let kept = stripped(rest, false);
            assert forall|i: int| 0 <= i < (seq![s[0]] + kept).len() implies ({
                let c = #[trigger] (seq![s[0]] + kept)[i];
                c != '<' && c != '>'
            }) by {
                if i > 0 {
                    assert(kept.contains(kept[i - 1]));
                }
            }
        }
    }
}

proof fn lemma_stripped_keeps(s: Seq<char>)
    requires
        !s.contains('<'),
        !s.contains('>'),
    ensures
        stripped(s, false) == s,
    decreases s.len(),
{
    if s.len() > 0 {
        let rest = s.skip(1);
        assert(s.contains(s[0]));
        assert forall|i: int| 0 <= i < rest.len() implies #[trigger] rest[i] != '<' && rest[i]
            != '>' by {
            assert(s.contains(s[i + 1]));
        }
        lemma_stripped_keeps(rest);
        assert(seq![s[0]] + rest =~= s);
    } else {
        assert(s =~= Seq::<char>::empty());
    }
}

/// Escaped text that is read as a message loses what stands in it as tags, and
/// has its references read; text without angle brackets loses nothing.
pub proof fn lemma_plain_text_of_escaped(s: Seq<char>)
    ensures
        plain_text(escaped(s)) == unescaped(stripped(s, false)),
        !s.contains('<') && !s.contains('>') ==> plain_text(escaped(s)) == unescaped(s),
{
    lemma_unescape_undoes_escape(s);
    if !s.contains('<') && !s.contains('>') {
        lemma_stripped_keeps(s);
    }
}

proof fn lemma_untouched(s: Seq<char>, pat: Seq<char>, to: Seq<char>)
    requires
        is_reference(pat),
        !s.contains('&'),
    ensures
        replace_all(s, pat, to) == s,
{
    let none = Seq::<char>::empty();
    assert forall|i: int| !occurs_at(s, pat, i) by {
        if occurs_at(s, pat, i) {
            assert(s.subrange(i, i + pat.len())[0] == s[i]);
            assert(s.contains(s[i]));
        }
    }
    lemma_replace(none, s, pat, to);
}

/// Text without an ampersand and without angle brackets is plain text already, and
/// comes through character for character.
pub proof fn lemma_plain_text_stays(s: Seq<char>)
    requires
        !s.contains('&'),
        !s.contains('<'),
        !s.contains('>'),
    ensures
        plain_text(s) == s,
        unescaped(s) == s,
        stripped(s, false) == s,
{
    lemma_references();
    lemma_untouched(s, "&lt;"@, "<"@);
    lemma_untouched(s, "&gt;"@, ">"@);
    lemma_untouched(s, "&quot;"@, "\""@);
    lemma_untouched(s, "&#39;"@, "'"@);
    lemma_untouched(s, "&apos;"@, "'"@);
    lemma_untouched(s, "&amp;"@, "&"@);
    lemma_stripped_keeps(s);
}

proof fn lemma_passed_over(
    before: Seq<char>,
    piece: Seq<char>,
    after: Seq<char>,
    pat: Seq<char>,
    to: Seq<char>,
)
    requires
        is_reference(pat),
        is_reference(piece),
        !before.contains('&'),
        !after.contains('&'),
    ensures
        piece != pat ==> replace_all(before + (piece + after), pat, to) == before + (piece + after),
        piece == pat ==> replace_all(before + (piece + after), pat, to) == before + (to + after),
{
    let whole = before + (piece + after);
    assert forall|i: int| 0 <= i < before.len() implies !occurs_at(whole, pat, i) by {
        if occurs_at(whole, pat, i) {
            assert(whole.subrange(i, i + pat.len())[0] == whole[i]);
            assert(before.contains(before[i]));
        }
    }
    lemma_untouched(after, pat, to);
    if piece == pat {
        lemma_replace(before, after, pat, to);
    } else {
        lemma_copied(before, piece + after, pat, to);
        lemma_no_start(piece, after, pat);
        lemma_copied(piece, after, pat, to);
    }
}

proof fn lemma_no_ampersand(before: Seq<char>, c: char, after: Seq<char>)
    requires
        c != '&',
        !before.contains('&'),
        !after.contains('&'),
    ensures
        !(before + (seq![c] + after)).contains('&'),
{
    let whole = before + (seq![c] + after);
    if whole.contains('&') {
        let i = choose|i: int| 0 <= i < whole.len() && whole[i] == '&';
        if i < before.len() {
            assert(before.contains(before[i]));
        } else if i > before.len() {
            assert(after.contains(after[i - before.len() - 1]));
        }
    }
}

proof fn lemma_read_from(k: int, before: Seq<char>, after: Seq<char>)
    requires
        0 <= k < 6,
        !before.contains('&'),
        !after.contains('&'),
    ensures
        unescaped(before + (stage_pattern(k) + after)) == before + (stage_result(k) + after),
{
    lemma_references();
    let p = stage_pattern(k);
    lemma_passed_over(before, p, after, "&lt;"@, "<"@);
    lemma_passed_over(before, p, after, "&gt;"@, ">"@);
    lemma_passed_over(before, p, after, "&quot;"@, "\""@);
    lemma_passed_over(before, p, after, "&#39;"@, "'"@);
    lemma_passed_over(before, p, after, "&apos;"@, "'"@);
    lemma_passed_over(before, p, after, "&amp;"@, "&"@);
    let done = before + (stage_result(k) + after);
    if k < 5 {
        lemma_no_ampersand(before, stage_result(k)[0], after);
        assert(stage_result(k) =~= seq![stage_result(k)[0]]);
        lemma_untouched(done, "&gt;"@, ">"@);
        lemma_untouched(done, "&quot;"@, "\""@);
        lemma_untouched(done, "&#39;"@, "'"@);
        lemma_untouched(done, "&apos;"@, "'"@);
        lemma_untouched(done, "&amp;"@, "&"@);
    }
}

/// Each reference is read as its character, and what stands around it stays: the
/// five that text is escaped with, and the named apostrophe.
pub proof fn lemma_references_are_read(before: Seq<char>, after: Seq<char>)
    requires
        !before.contains('&'),
        !after.contains('&'),
    ensures
        unescaped(before + ("&lt;"@ + after)) == before + (seq!['<'] + after),
        unescaped(before + ("&gt;"@ + after)) == before + (seq!['>'] + after),
        unescaped(before + ("&quot;"@ + after)) == before + (seq!['"'] + after),
        unescaped(before + ("&#39;"@ + after)) == before + (seq!['\''] + after),
        unescaped(before + ("&apos;"@ + after)) == before + (seq!['\''] + after),
        unescaped(before + ("&amp;"@ + after)) == before + (seq!['&'] + after),
{
    lemma_references();
    assert("&amp;"@[1] != "&lt;"@[1] && "&amp;"@[2] != "&apos;"@[2]);
    lemma_read_from(0, before, after);
    lemma_read_from(1, before, after);
    lemma_read_from(2, before, after);
    lemma_read_from(3, before, after);
    lemma_read_from(4, before, after);
    lemma_read_from(5, before, after);
}

/// A tag is taken out with its brackets, and what stands before and behind it is
/// treated as if it were not there.
pub proof fn lemma_tags_are_removed(before: Seq<char>, tag: Seq<char>, after: Seq<char>)
    requires
        !before.contains('<'),
        !before.contains('>'),
        !tag.contains('<'),
        !tag.contains('>'),
    ensures
        stripped(before + (seq!['<'] + (tag + (seq!['>'] + after))), false) == before + stripped(
            after,
            false,
        ),
{
    let closed = seq!['>'] + after;
    assert(closed.skip(1) =~= after);
    lemma_inside_tag(tag, closed);
    let opened = seq!['<'] + (tag + closed);
    assert(opened.skip(1) =~= tag + closed);
    lemma_before_tag(before, opened);
}

proof fn lemma_inside_tag(tag: Seq<char>, rest: Seq<char>)
    requires
        !tag.contains('<'),
        !tag.contains('>'),
    ensures
        stripped(tag + rest, true) == stripped(rest, true),
    decreases tag.len(),
{
    if tag.len() > 0 {
        let tail = tag.skip(1);
        assert((tag + rest).skip(1) =~= tail + rest);
        assert(tag.contains(tag[0]));
        assert forall|i: int| 0 <= i < tail.len() implies #[trigger] tail[i] != '<' && tail[i]
            != '>' by {
            assert(tag.contains(tag[i + 1]));
        }
        lemma_inside_tag(tail, rest);
    } else {
        assert(tag + rest =~= rest);
    }
}

/// Text without angle brackets in front of other text is kept.
proof fn lemma_before_tag(before: Seq<char>, rest: Seq<char>)
    requires
        !before.contains('<'),
        !before.contains('>'),
    ensures
        stripped(before + rest, false) == before + stripped(rest, false),
    decreases before.len(),
{
    if before.len() > 0 {
        let tail = before.skip(1);
        assert((before + rest).skip(1) =~= tail + rest);
        assert(before.contains(before[0]));
        assert forall|i: int| 0 <= i < tail.len() implies #[trigger] tail[i] != '<' && tail[i]
            != '>' by {
            assert(before.contains(before[i + 1]));
        }
        lemma_before_tag(tail, rest);
        assert(seq![before[0]] + (tail + stripped(rest, false)) =~= before + stripped(rest, false));
    } else {
        assert(before + rest =~= rest);
        assert(before + stripped(rest, false) =~= stripped(rest, false));
    }
}

/// Whether text that begins inside a tag or outside ends inside one.
pub open spec fn in_tag_after(s: Seq<char>, in_tag: bool) -> bool
    decreases s.len(),
{
    if s.len() == 0 {
        in_tag
    } else if s[0] == '<' {
        in_tag_after(s.skip(1), true)
    } else if s[0] == '>' {
        in_tag_after(s.skip(1), false)
    } else {
        in_tag_after(s.skip(1), in_tag)
    }
}

/// Two texts one after the other lose their tags one after the other.
pub proof fn lemma_stripped_adds(a: Seq<char>, b: Seq<char>, in_tag: bool)
    ensures
        stripped(a + b, in_tag) == stripped(a, in_tag) + stripped(b, in_tag_after(a, in_tag)),
        in_tag_after(a + b, in_tag) == in_tag_after(b, in_tag_after(a, in_tag)),
    decreases a.len(),
{
    if a.len() == 0 {
        assert(a + b =~= b);
        assert(stripped(a, in_tag) + stripped(b, in_tag) =~= stripped(b, in_tag));
    } else {
        let rest = a.skip(1);
        assert((a + b).skip(1) =~= rest + b);
        assert((a + b)[0] == a[0]);
        if a[0] == '<' {
            lemma_stripped_adds(rest, b, true);
        } else if a[0] == '>' {
            lemma_stripped_adds(rest, b, false);
        } else {
            lemma_stripped_adds(rest, b, in_tag);
            if !in_tag {
                let tail = stripped(b, in_tag_after(a, in_tag));
                assert(seq![a[0]] + (stripped(rest, false) + tail) =~= (seq![a[0]] + stripped(
                    rest,
                    false,
                )) + tail);
            }
        }
    }
}

/// Text without angle brackets is outside of tags where it began outside of one.
pub proof fn lemma_outside_tags(s: Seq<char>)
    requires
        !s.contains('<'),
        !s.contains('>'),
    ensures
        !in_tag_after(s, false),
        stripped(s, false) == s,
    decreases s.len(),
{
    lemma_stripped_keeps(s);
    if s.len() > 0 {
        let rest = s.skip(1);
        assert(s.contains(s[0]));
        assert forall|i: int| 0 <= i < rest.len() implies #[trigger] rest[i] != '<' && rest[i]
            != '>' by {
            assert(s.contains(s[i + 1]));
        }
        lemma_outside_tags(rest);
    }
}

/// Two texts one after the other are escaped one after the other; a character that
/// needs no escape stays.
pub proof fn lemma_escaped_adds(a: Seq<char>, b: Seq<char>, c: char)
    ensures
        escaped(a + b) == escaped(a) + escaped(b),
        c != '&' && c != '<' && c != '>' && c != '"' && c != '\'' ==> escaped(seq![c]) == seq![c],
    decreases a.len(),
{
    assert(seq![c].skip(1) =~= Seq::<char>::empty());
    assert(escaped(seq![c].skip(1)) =~= Seq::<char>::empty());
    assert(seq![c] + Seq::<char>::empty() =~= seq![c]);
    if a.len() == 0 {
        assert(a + b =~= b);
        assert(escaped(a) + escaped(b) =~= escaped(b));
    } else {
        let rest = a.skip(1);
        assert((a + b).skip(1) =~= rest + b);
        lemma_escaped_adds(rest, b, c);
        assert(escaped_char(a[0]) + (escaped(rest) + escaped(b)) =~= (escaped_char(a[0]) + escaped(
            rest,
        )) + escaped(b));
    }
}

} // verus!

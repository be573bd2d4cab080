//! Text primitives over the character sequence of a string.

use vstd::prelude::*;
use vstd::utf8::encode_utf8;

verus! {

/// `String::push` appends one character to the end.
pub assume_specification[ String::push ](s: &mut String, c: char)
    ensures
        final(s)@ == old(s)@.push(c),
;

// ─── optional texts ──────────────────────────────────────────────────────

/// The view of an optional text.
pub open spec fn opt_text(text: Option<&str>) -> Option<Seq<char>> {
    match text {
        Some(s) => Some(s@),
        None => None,
    }
}

/// The view of an optional string.
pub open spec fn opt_string(text: Option<String>) -> Option<Seq<char>> {
    match text {
        Some(s) => Some(s@),
        None => None,
    }
}

/// The text behind an optional string.
pub fn as_text(text: &Option<String>) -> (r: Option<&str>)
    ensures
        opt_text(r) == opt_string(*text),
{
    match text {
        Some(s) => Some(s.as_str()),
        None => None,
    }
}

// ─── building and taking apart ───────────────────────────────────────────

/// The characters of `s`, in order.
pub fn chars_of(s: &str) -> (r: Vec<char>)
    ensures
        r@ == s@,
{
    let mut out: Vec<char> = Vec::new();
    for c in it: s.chars()
        invariant
            it.seq() == s@,
            out@ == it.seq().take(it.index() as int),
    {
        out.push(c);
    }
    out
}

/// The string made of `chars[from..to]`.
pub fn string_from(chars: &Vec<char>, from: usize, to: usize) -> (r: String)
    requires
        from <= to <= chars@.len(),
    ensures
        r@ == chars@.subrange(from as int, to as int),
{
    let mut out = String::new();
    let mut i: usize = from;
    while i < to
        invariant
            from <= i <= to <= chars@.len(),
            out@ == chars@.subrange(from as int, i as int),
        decreases to - i,
    {
        out.push(chars[i]);
        i = i + 1;
        assert(chars@.subrange(from as int, i as int) =~= chars@.subrange(
            from as int,
            i - 1,
        ).push(chars@[i - 1]));
    }
    out
}

/// Whether two strings hold the same characters.
pub fn same_text(a: &str, b: &str) -> (r: bool)
    ensures
        r == (a@ == b@),
{
    let x = chars_of(a);
    let y = chars_of(b);
    if x.len() != y.len() {
        return false;
    }
    let mut i: usize = 0;
    while i < x.len()
        invariant
            i <= x@.len(),
            x@.len() == y@.len(),
            x@ == a@,
            y@ == b@,
            x@.take(i as int) == y@.take(i as int),
        decreases x@.len() - i,
    {
        if x[i] != y[i] {
            return false;
        }
        i = i + 1;
        assert(x@.take(i as int) =~= x@.take(i - 1).push(x@[i - 1]));
        assert(y@.take(i as int) =~= y@.take(i - 1).push(y@[i - 1]));
    }
    assert(x@.take(i as int) =~= x@);
    assert(y@.take(i as int) =~= y@);
    true
}

/// The part of `s` from character `from` up to, not including, character `to`.
pub fn slice_chars<'a>(s: &'a str, from: usize, to: usize) -> (r: &'a str)
    requires
        from <= to <= s@.len(),
    ensures
        r@ == s@.subrange(from as int, to as int),
{
    s.substring_char(from, to)
}

// ─── white space ─────────────────────────────────────────────────────────

/// The characters with Unicode's `White_Space` property.
pub open spec fn is_space(c: char) -> bool {
    ||| '\u{9}' <= c <= '\u{d}'
    ||| c == ' '
    ||| c == '\u{85}'
    ||| c == '\u{a0}'
    ||| c == '\u{1680}'
    ||| '\u{2000}' <= c <= '\u{200a}'
    ||| c == '\u{2028}'
    ||| c == '\u{2029}'
    ||| c == '\u{202f}'
    ||| c == '\u{205f}'
    ||| c == '\u{3000}'
}

/// Whether `c` is white space.
pub fn is_space_char(c: char) -> (r: bool)
    ensures
        r == is_space(c),
{
    ('\u{9}' <= c && c <= '\u{d}') || c == ' ' || c == '\u{85}' || c == '\u{a0}' || c
        == '\u{1680}' || ('\u{2000}' <= c && c <= '\u{200a}') || c == '\u{2028}' || c == '\u{2029}'
        || c == '\u{202f}' || c == '\u{205f}' || c == '\u{3000}'
}

/// `s` without its leading white space.
pub open spec fn trim_start(s: Seq<char>) -> Seq<char>
    decreases s.len(),
{
    if s.len() > 0 && is_space(s[0]) {
        trim_start(s.skip(1))
    } else {
        s
    }
}

/// `s` without its trailing white space.
pub open spec fn trim_end(s: Seq<char>) -> Seq<char>
    decreases s.len(),
{
    if s.len() > 0 && is_space(s.last()) {
        trim_end(s.drop_last())
    } else {
        s
    }
}

/// `s` without leading and trailing white space.
pub open spec fn trimmed(s: Seq<char>) -> Seq<char> {
    trim_end(trim_start(s))
}

/// `s` without leading and trailing white space.
pub fn trim<'a>(s: &'a str) -> (r: &'a str)
    ensures
        r@ == trimmed(s@),
{
    let chars = chars_of(s);
    let n: usize = chars.len();
    let mut from: usize = 0;
    assert(s@.skip(0) =~= s@);
    while from < n && is_space_char(chars[from])
        invariant
            from <= n == chars@.len(),
            chars@ == s@,
            trim_start(s@) == trim_start(s@.skip(from as int)),
        decreases n - from,
    {
        assert(s@.skip(from as int).skip(1) =~= s@.skip(from + 1));
        from = from + 1;
    }
    assert(trim_start(s@) == s@.skip(from as int));
    let mut to: usize = n;
    assert(s@.subrange(from as int, n as int) =~= s@.skip(from as int));
    while from < to && is_space_char(chars[to - 1])
        invariant
            from <= to <= n == chars@.len(),
            chars@ == s@,
            trimmed(s@) == trim_end(s@.subrange(from as int, to as int)),
        decreases to,
    {
        assert(s@.subrange(from as int, to as int).drop_last() =~= s@.subrange(
            from as int,
            to - 1,
        ));
        to = to - 1;
    }
    slice_chars(s, from, to)
}

// ─── letter case ─────────────────────────────────────────────────────────

/// `c` with an ASCII capital letter made small.
pub open spec fn ascii_lower_char(c: char) -> char {
    if 'A' <= c <= 'Z' {
        ((c as u32) + 32) as char
    } else {
        c
    }
}

/// `s` with its ASCII capital letters made small.
pub open spec fn ascii_lower(s: Seq<char>) -> Seq<char> {
    s.map_values(|c: char| ascii_lower_char(c))
}

/// Whether `s` holds ASCII characters only.
pub open spec fn all_ascii(s: Seq<char>) -> bool {
    forall|i: int| 0 <= i < s.len() ==> #[trigger] s[i] <= '\u{7f}'
}

/// What `str::to_lowercase` returns for the characters `s`.
pub uninterp spec fn lowercase(s: Seq<char>) -> Seq<char>;

/// `str::to_lowercase`: the Unicode lowercase of a string, which depends on the
/// string alone. A string of ASCII characters only is lowered letter by letter.
#[verifier::external_body]
pub(crate) fn to_lowercase(s: &str) -> (r: String)
    ensures
        r@ == lowercase(s@),
        all_ascii(s@) ==> r@ == ascii_lower(s@),
{
    s.to_lowercase()
}

/// `str::to_ascii_lowercase`, character by character.
pub fn to_ascii_lowercase(s: &str) -> (r: String)
    ensures
        r@ == ascii_lower(s@),
{
    let chars = chars_of(s);
    let mut out = String::new();
    let mut i: usize = 0;
    while i < chars.len()
        invariant
            i <= chars@.len(),
            chars@ == s@,
            out@ == ascii_lower(s@.take(i as int)),
        decreases chars@.len() - i,
    {
        let c: char = chars[i];
        if 'A' <= c && c <= 'Z' {
            let b: u8 = c as u8;
            out.push((b + 32) as char);
        } else {
            out.push(c);
        }
        i = i + 1;
        assert(s@.take(i as int) =~= s@.take(i - 1).push(c));
        assert(ascii_lower(s@.take(i as int)) =~= ascii_lower(s@.take(i - 1)).push(
            ascii_lower_char(c),
        ));
    }
    assert(s@.take(i as int) =~= s@);
    out
}

/// `s` with every space and hyphen made an underscore.
pub open spec fn underscored(s: Seq<char>) -> Seq<char> {
    s.map_values(|c: char| if c == ' ' || c == '-' { '_' } else { c })
}

/// `s` with every space and hyphen made an underscore.
pub fn underscore(s: &str) -> (r: String)
    ensures
        r@ == underscored(s@),
{
    let chars = chars_of(s);
    let mut out = String::new();
    let mut i: usize = 0;
    while i < chars.len()
        invariant
            i <= chars@.len(),
            chars@ == s@,
            out@ == underscored(s@.take(i as int)),
        decreases chars@.len() - i,
    {
        let c: char = chars[i];
        let d: char = if c == ' ' || c == '-' {
            '_'
        } else {
            c
        };
        out.push(d);
        i = i + 1;
        assert(s@.take(i as int) =~= s@.take(i - 1).push(c));
        assert(underscored(s@.take(i as int)) =~= underscored(s@.take(i - 1)).push(d));
    }
    assert(s@.take(i as int) =~= s@);
    out
}

/// Whether `c` breaks a line.
pub open spec fn breaks_line(c: char) -> bool {
    c == '\n' || c == '\r'
}

/// `s` on one line: with every line break made a space.
pub open spec fn folded(s: Seq<char>) -> Seq<char> {
    s.map_values(|c: char| if breaks_line(c) { ' ' } else { c })
}

/// `s` on one line: with every line break made a space.
pub fn fold_lines(s: &str) -> (r: String)
    ensures
        r@ == folded(s@),
{
    let chars = chars_of(s);
    let mut out = String::new();
    let mut i: usize = 0;
    while i < chars.len()
        invariant
            i <= chars@.len(),
            chars@ == s@,
            out@ == folded(s@.take(i as int)),
        decreases chars@.len() - i,
    {
        let c: char = chars[i];
        let d: char = if c == '\n' || c == '\r' {
            ' '
        } else {
            c
        };
        out.push(d);
        i = i + 1;
        assert(s@.take(i as int) =~= s@.take(i - 1).push(c));
        assert(folded(s@.take(i as int)) =~= folded(s@.take(i - 1)).push(d));
    }
    assert(s@.take(i as int) =~= s@);
    out
}

// ─── searching and replacing ─────────────────────────────────────────────

/// Whether `pat` stands in `s` from character `i` on.
pub open spec fn occurs_at(s: Seq<char>, pat: Seq<char>, i: int) -> bool {
    0 <= i && i + pat.len() <= s.len() && s.subrange(i, i + pat.len()) == pat
}

/// Whether `pat` stands somewhere in `s`.
pub open spec fn occurs(s: Seq<char>, pat: Seq<char>) -> bool {
    exists|i: int| occurs_at(s, pat, i)
}

fn matches_at(s: &Vec<char>, pat: &Vec<char>, i: usize) -> (r: bool)
    requires
        i <= s@.len(),
    ensures
        r == occurs_at(s@, pat@, i as int),
{
    let n: usize = s.len();
    if pat.len() > n - i {
        return false;
    }
    let ghost part = s@.subrange(i as int, i + pat@.len());
    let mut k: usize = 0;
    while k < pat.len()
        invariant
            k <= pat@.len(),
            n == s@.len(),
            i + pat@.len() <= n,
            part == s@.subrange(i as int, i + pat@.len()),
            forall|j: int| 0 <= j < k ==> #[trigger] part[j] == pat@[j],
        decreases pat@.len() - k,
    {
        if s[i + k] != pat[k] {
            assert(part[k as int] != pat@[k as int]);
            return false;
        }
        k = k + 1;
    }
    assert(part =~= pat@);
    true
}

/// `str::contains` for a text pattern.
pub fn contains(s: &str, pat: &str) -> (r: bool)
    ensures
        r == occurs(s@, pat@),
{
    let text = chars_of(s);
    let needle = chars_of(pat);
    let mut i: usize = 0;
    while i < text.len()
        invariant
            i <= text@.len(),
            text@ == s@,
            needle@ == pat@,
            forall|j: int| 0 <= j < i ==> !occurs_at(s@, pat@, j),
        decreases text@.len() - i,
    {
        if matches_at(&text, &needle, i) {
            return true;
        }
        i = i + 1;
    }
    matches_at(&text, &needle, i)
}

/// `s` with every occurrence of `pat`, sought from the left and not
/// overlapping, made `to`.
pub open spec fn replace_all(s: Seq<char>, pat: Seq<char>, to: Seq<char>) -> Seq<char>
    decreases s.len(),
{
    if s.len() == 0 || pat.len() == 0 {
        s
    } else if occurs_at(s, pat, 0) {
        to + replace_all(s.skip(pat.len() as int), pat, to)
    } else {
        seq![s[0]] + replace_all(s.skip(1), pat, to)
    }
}

/// `str::replace` for a text pattern that is not empty.
pub fn replace(s: &str, pat: &str, to: &str) -> (r: String)
    requires
        pat@.len() > 0,
    ensures
        r@ == replace_all(s@, pat@, to@),
{
    let text = chars_of(s);
    let needle = chars_of(pat);
    let n: usize = text.len();
    let m: usize = needle.len();
    let mut out = String::new();
    let mut i: usize = 0;
    assert(s@.skip(0) =~= s@);
    while i < n
        invariant
            i <= n == text@.len(),
            m == needle@.len() > 0,
            text@ == s@,
            needle@ == pat@,
            replace_all(s@, pat@, to@) == out@ + replace_all(s@.skip(i as int), pat@, to@),
        decreases n - i,
    {
        let ghost rest = s@.skip(i as int);
        let ghost before = out@;
        let here = matches_at(&text, &needle, i);
        proof {
            if i + m <= n {
                assert(rest.subrange(0, m as int) =~= s@.subrange(i as int, i + m));
            }
            assert(occurs_at(rest, pat@, 0) == occurs_at(s@, pat@, i as int));
        }
        if here {
            out.append(to);
            assert(rest.skip(m as int) =~= s@.skip(i + m));
            assert(before + (to@ + replace_all(s@.skip(i + m), pat@, to@)) =~= out@ + replace_all(
                s@.skip(i + m),
                pat@,
                to@,
            ));
            i = i + m;
        } else {
            out.push(text[i]);
            assert(rest.skip(1) =~= s@.skip(i + 1));
            assert(before + (seq![rest[0]] + replace_all(s@.skip(i + 1), pat@, to@)) =~= out@
                + replace_all(s@.skip(i + 1), pat@, to@));
            i = i + 1;
        }
    }
    assert(s@.skip(i as int) =~= Seq::<char>::empty());
    assert(out@ + Seq::<char>::empty() =~= out@);
    out
}

/// Whether `s` begins with the character `c`.
pub open spec fn begins_with(s: Seq<char>, c: char) -> bool {
    s.len() > 0 && s[0] == c
}

/// `str::starts_with` for a single character.
pub fn starts_with(s: &str, c: char) -> (r: bool)
    ensures
        r == begins_with(s@, c),
{
    !s.is_empty() && s.get_char(0) == c
}

// ─── lines and lengths ───────────────────────────────────────────────────

/// The characters of `s` before its first line feed, without the carriage
/// return that may stand directly before that line feed; all of `s` where it
/// holds no line feed.
pub open spec fn first_line(s: Seq<char>) -> Seq<char> {
    let n = line_length(s);
    if n == s.len() {
        s
    } else if n > 0 && s[n - 1] == '\r' {
        s.take(n - 1)
    } else {
        s.take(n)
    }
}

/// How many characters stand before the first line feed of `s`.
pub open spec fn line_length(s: Seq<char>) -> int
    decreases s.len(),
{
    if s.len() == 0 || s[0] == '\n' {
        0
    } else {
        1 + line_length(s.skip(1))
    }
}

/// A position with no line feed before it, and one at it or nothing, is where
/// the first line ends.
pub proof fn lemma_line_length(s: Seq<char>, n: int)
    requires
        0 <= n <= s.len(),
        forall|i: int| 0 <= i < n ==> #[trigger] s[i] != '\n',
        n == s.len() || s[n] == '\n',
    ensures
        line_length(s) == n,
    decreases n,
{
    if n > 0 {
        assert(s[0] != '\n');
        assert forall|i: int| 0 <= i < n - 1 implies #[trigger] s.skip(1)[i] != '\n' by {
            assert(s.skip(1)[i] == s[i + 1]);
        }
        lemma_line_length(s.skip(1), n - 1);
    }
}

/// The first of `str::lines`, or `s` itself where there is none.
pub fn take_first_line<'a>(s: &'a str) -> (r: &'a str)
    ensures
        r@ == first_line(s@),
{
    let chars = chars_of(s);
    let n: usize = chars.len();
    let mut i: usize = 0;
    while i < n && chars[i] != '\n'
        invariant
            i <= n == chars@.len(),
            chars@ == s@,
            forall|j: int| 0 <= j < i ==> #[trigger] s@[j] != '\n',
        decreases n - i,
    {
        i = i + 1;
    }
    proof {
        lemma_line_length(s@, i as int);
    }
    if i == n {
        s
    } else if i > 0 && chars[i - 1] == '\r' {
        slice_chars(s, 0, i - 1)
    } else {
        slice_chars(s, 0, i)
    }
}

/// The first `n` characters of `s`, or all of it where it has fewer.
pub open spec fn at_most(s: Seq<char>, n: int) -> Seq<char> {
    if s.len() <= n {
        s
    } else {
        s.take(n)
    }
}

/// The first `n` characters of `s`, or all of it where it has fewer.
pub fn take_chars<'a>(s: &'a str, n: usize) -> (r: &'a str)
    ensures
        r@ == at_most(s@, n as int),
{
    let len: usize = s.unicode_len();
    if len <= n {
        s
    } else {
        slice_chars(s, 0, n)
    }
}

/// How many bytes the characters of `s` take in UTF-8.
pub open spec fn utf8_len(s: Seq<char>) -> nat {
    encode_utf8(s).len()
}

/// The length of `s` in bytes.
pub fn byte_len(s: &str) -> (r: usize)
    ensures
        r == utf8_len(s@),
{
    s.as_bytes().len()
}

// ─── joining ─────────────────────────────────────────────────────────────

/// The texts of `parts`, in order.
pub open spec fn texts(parts: Seq<String>) -> Seq<Seq<char>> {
    parts.map_values(|p: String| p@)
}

/// `parts` one after the other.
pub open spec fn concat_all(parts: Seq<Seq<char>>) -> Seq<char>
    decreases parts.len(),
{
    if parts.len() == 0 {
        Seq::empty()
    } else {
        concat_all(parts.drop_last()) + parts.last()
    }
}

/// `parts` one after the other, with `sep` between neighbours.
pub open spec fn joined(parts: Seq<Seq<char>>, sep: Seq<char>) -> Seq<char>
    decreases parts.len(),
{
    if parts.len() == 0 {
        Seq::empty()
    } else if parts.len() == 1 {
        parts[0]
    } else {
        joined(parts.drop_last(), sep) + sep + parts.last()
    }
}

/// `parts` one after the other, with `sep` between neighbours.
pub fn join(parts: &Vec<String>, sep: &str) -> (r: String)
    ensures
        r@ == joined(texts(parts@), sep@),
{
    let mut out = String::new();
    let mut i: usize = 0;
    while i < parts.len()
        invariant
            i <= parts@.len(),
            out@ == joined(texts(parts@.take(i as int)), sep@),
        decreases parts@.len() - i,
    {
        if i > 0 {
            out.append(sep);
        }
        out.append(parts[i].as_str());
        i = i + 1;
        assert(texts(parts@.take(i as int)).drop_last() =~= texts(parts@.take(i - 1)));
        if i == 1 {
            assert(out@ =~= parts@[0]@);
        }
    }
    assert(parts@.take(i as int) =~= parts@);
    out
}

// ─── what holds of every text ────────────────────────────────────────────

/// Whether every character of `s` is white space.
pub open spec fn all_space(s: Seq<char>) -> bool {
    forall|i: int| 0 <= i < s.len() ==> is_space(#[trigger] s[i])
}

/// Whether `s` neither begins nor ends with white space.
pub open spec fn no_outer_space(s: Seq<char>) -> bool {
    s.len() > 0 ==> !is_space(s[0]) && !is_space(s.last())
}

/// The blank and the ASCII control characters for tabs, lines and pages are white
/// space; no visible ASCII character is.
pub proof fn lemma_ascii_space(c: char)
    requires
        c <= '~',
    ensures
        is_space(c) <==> c == ' ' || c == '\t' || c == '\n' || c == '\r' || c == '\u{b}' || c
            == '\u{c}',
{
}

proof fn lemma_trim_start(s: Seq<char>)
    ensures
        trim_start(s).len() <= s.len(),
        s.skip(s.len() - trim_start(s).len()) == trim_start(s),
        all_space(s.take(s.len() - trim_start(s).len())),
        trim_start(s).len() > 0 ==> !is_space(trim_start(s)[0]),
    decreases s.len(),
{
    if s.len() > 0 && is_space(s[0]) {
        let rest = s.skip(1);
        lemma_trim_start(rest);
        let t = trim_start(s);
        let front = s.take(s.len() - t.len());
        assert(s.skip(s.len() - t.len()) =~= rest.skip(rest.len() - t.len()));
        assert forall|i: int| 0 <= i < front.len() implies is_space(#[trigger] front[i]) by {
            if i > 0 {
                assert(rest.take(rest.len() - t.len())[i - 1] == front[i]);
            }
        }
    } else {
        assert(s.skip(0) =~= s);
    }
}

proof fn lemma_trim_end(s: Seq<char>)
    ensures
        trim_end(s).len() <= s.len(),
        s.take(trim_end(s).len() as int) == trim_end(s),
        all_space(s.skip(trim_end(s).len() as int)),
        trim_end(s).len() > 0 ==> !is_space(trim_end(s).last()),
    decreases s.len(),
{
    if s.len() > 0 && is_space(s.last()) {
        let rest = s.drop_last();
        lemma_trim_end(rest);
        let t = trim_end(s);
        let back = s.skip(t.len() as int);
        assert(s.take(t.len() as int) =~= rest.take(t.len() as int));
        assert forall|i: int| 0 <= i < back.len() implies is_space(#[trigger] back[i]) by {
            if i < back.len() - 1 {
                assert(rest.skip(t.len() as int)[i] == back[i]);
            }
        }
    } else {
        assert(s.take(s.len() as int) =~= s);
    }
}

/// Trimming takes white space off both ends and nothing else: what is left is a
/// part of the text with nothing but white space around it, and neither begins
/// nor ends with any. A text without outer white space stays as it is.
pub proof fn lemma_trimmed(s: Seq<char>)
    ensures
        no_outer_space(trimmed(s)),
        exists|before: Seq<char>, after: Seq<char>|
            all_space(before) && all_space(after) && s == #[trigger] (before + trimmed(s) + after),
        no_outer_space(s) ==> trimmed(s) == s,
        trimmed(s).len() == 0 <==> all_space(s),
{
    let mid = trim_start(s);
    let t = trimmed(s);
    lemma_trim_start(s);
    lemma_trim_end(mid);
    let before = s.take(s.len() - mid.len());
    let after = mid.skip(t.len() as int);
    assert(s =~= before + t + after);
    if t.len() > 0 {
        assert(t[0] == mid[0]);
        assert(t[0] == s[before.len() as int]);
        assert(!is_space(s[before.len() as int]));
    } else {
        assert forall|i: int| 0 <= i < s.len() implies is_space(#[trigger] s[i]) by {
            if i < before.len() {
                assert(before[i] == s[i]);
            } else {
                assert(after[i - before.len()] == s[i]);
            }
        }
    }
}

/// Trimming finds a text again that white space was put around.
pub proof fn lemma_trimmed_within(before: Seq<char>, s: Seq<char>, after: Seq<char>)
    requires
        all_space(before),
        all_space(after),
        no_outer_space(s),
    ensures
        trimmed(before + s + after) == s,
    decreases before.len() + after.len(),
{
    let whole = before + s + after;
    if before.len() > 0 {
        assert(whole[0] == before[0]);
        assert(whole.skip(1) =~= before.skip(1) + s + after);
        assert forall|i: int| 0 <= i < before.skip(1).len() implies is_space(
            #[trigger] before.skip(1)[i],
        ) by {
            assert(before.skip(1)[i] == before[i + 1]);
        }
        lemma_trimmed_within(before.skip(1), s, after);
    } else if s.len() == 0 {
        assert(whole =~= after);
        lemma_trimmed(after);
        assert(trimmed(after) =~= s);
    } else {
        assert(whole =~= s + after);
        assert(whole[0] == s[0]);
        lemma_trim_end_within(s, after);
    }
}

proof fn lemma_trim_end_within(s: Seq<char>, after: Seq<char>)
    requires
        all_space(after),
        s.len() > 0,
        !is_space(s.last()),
    ensures
        trim_end(s + after) == s,
    decreases after.len(),
{
    let whole = s + after;
    if after.len() > 0 {
        assert(whole.last() == after.last());
        assert(whole.drop_last() =~= s + after.drop_last());
        lemma_trim_end_within(s, after.drop_last());
    } else {
        assert(whole =~= s);
    }
}

/// The first line of a text: the part before its first line feed, without a
/// carriage return at the end of it. A text without a line feed is its first
/// line.
pub proof fn lemma_first_line(line: Seq<char>, rest: Seq<char>)
    requires
        !line.contains('\n'),
    ensures
        first_line(line) == line,
        first_line(line + seq!['\r', '\n'] + rest) == line,
        line.len() == 0 || line.last() != '\r' ==> first_line(line + seq!['\n'] + rest) == line,
{
    assert forall|i: int| 0 <= i < line.len() implies #[trigger] line[i] != '\n' by {
        assert(line.contains(line[i]));
    }
    lemma_line_length(line, line.len() as int);
    let one = line + seq!['\n'] + rest;
    lemma_line_length(one, line.len() as int);
    assert(one.take(line.len() as int) =~= line);
    let two = line + seq!['\r', '\n'] + rest;
    lemma_line_length(two, line.len() as int + 1);
    assert(two.take(line.len() as int) =~= line);
}

/// What a first line is of any text: a front of it that holds no line feed.
pub proof fn lemma_first_line_is_front(s: Seq<char>)
    ensures
        !first_line(s).contains('\n'),
        first_line(s).is_prefix_of(s),
{
    lemma_line_length_bounds(s);
    let n = line_length(s);
    let line = first_line(s);
    if line.contains('\n') {
        let i = choose|i: int| 0 <= i < line.len() && line[i] == '\n';
        assert(s[i] == '\n');
    }
    assert(line =~= s.take(line.len() as int));
}

proof fn lemma_line_length_bounds(s: Seq<char>)
    ensures
        0 <= line_length(s) <= s.len(),
        forall|i: int| 0 <= i < line_length(s) ==> #[trigger] s[i] != '\n',
    decreases s.len(),
{
    if s.len() > 0 && s[0] != '\n' {
        let rest = s.skip(1);
        lemma_line_length_bounds(rest);
        assert forall|i: int| 0 <= i < line_length(s) implies #[trigger] s[i] != '\n' by {
            if i > 0 {
                assert(rest[i - 1] == s[i]);
            }
        }
    }
}

/// Small letters go character by character: a capital ASCII letter becomes the
/// letter 32 places on, and every other character stays.
pub proof fn lemma_ascii_lower(s: Seq<char>)
    ensures
        ascii_lower(s).len() == s.len(),
        forall|i: int|
            0 <= i < s.len() ==> if 'A' <= s[i] <= 'Z' {
                (#[trigger] ascii_lower(s)[i]) as int == s[i] as int + 32
            } else {
                ascii_lower(s)[i] == s[i]
            },
{
}

/// Spaces and hyphens become underscores, and every other character stays.
pub proof fn lemma_underscored(s: Seq<char>)
    ensures
        underscored(s).len() == s.len(),
        !underscored(s).contains(' '),
        !underscored(s).contains('-'),
        forall|i: int|
            0 <= i < s.len() ==> #[trigger] underscored(s)[i] == s[i] || (underscored(s)[i] == '_'
                && (s[i] == ' ' || s[i] == '-')),
{
}

/// Folding leaves no line break, puts a space where one stood, and leaves every
/// other character.
pub proof fn lemma_folded(s: Seq<char>)
    ensures
        folded(s).len() == s.len(),
        !folded(s).contains('\n'),
        !folded(s).contains('\r'),
        forall|i: int|
            0 <= i < s.len() ==> #[trigger] folded(s)[i] == s[i] || (folded(s)[i] == ' ' && (s[i]
                == '\n' || s[i] == '\r')),
        !s.contains('\n') && !s.contains('\r') ==> folded(s) == s,
{
    if !s.contains('\n') && !s.contains('\r') {
        assert forall|i: int| 0 <= i < s.len() implies #[trigger] folded(s)[i] == s[i] by {
            assert(s.contains(s[i]));
        }
        assert(folded(s) =~= s);
    }
}

/// A pattern occurs in a text if and only if the text is something, the pattern,
/// and something.
pub proof fn lemma_occurs(s: Seq<char>, pat: Seq<char>)
    ensures
        occurs(s, pat) <==> exists|before: Seq<char>, after: Seq<char>|
            s == #[trigger] (before + pat + after),
{
    if occurs(s, pat) {
        let i = choose|i: int| occurs_at(s, pat, i);
        let part = s.subrange(i, i + pat.len());
        assert(s =~= s.take(i) + part + s.skip(i + pat.len()));
        assert(s == s.take(i) + pat + s.skip(i + pat.len()));
    }
    if exists|before: Seq<char>, after: Seq<char>| s == #[trigger] (before + pat + after) {
        let (before, after) = choose|before: Seq<char>, after: Seq<char>|
            s == #[trigger] (before + pat + after);
        assert(s.subrange(before.len() as int, before.len() as int + pat.len() as int) =~= pat);
        assert(occurs_at(s, pat, before.len() as int));
    }
}

/// Text in front of which the pattern never starts is copied.
pub proof fn lemma_replace_copies(piece: Seq<char>, rest: Seq<char>, pat: Seq<char>, to: Seq<char>)
    requires
        pat.len() > 0,
        forall|i: int| 0 <= i < piece.len() ==> !occurs_at(piece + rest, pat, i),
    ensures
        replace_all(piece + rest, pat, to) == piece + replace_all(rest, pat, to),
    decreases piece.len(),
{
    if piece.len() == 0 {
        assert(piece + rest =~= rest);
        assert(piece + replace_all(rest, pat, to) =~= replace_all(rest, pat, to));
    } else {
        let whole = piece + rest;
        let tail = piece.skip(1);
        assert(!occurs_at(whole, pat, 0));
        assert(whole.skip(1) =~= tail + rest);
        assert forall|i: int| 0 <= i < tail.len() implies !occurs_at(tail + rest, pat, i) by {
            assert(!occurs_at(whole, pat, i + 1));
            if i + pat.len() <= (tail + rest).len() {
                assert((tail + rest).subrange(i, i + pat.len()) =~= whole.subrange(
                    i + 1,
                    i + 1 + pat.len(),
                ));
            }
        }
        lemma_replace_copies(tail, rest, pat, to);
        assert(seq![whole[0]] + (tail + replace_all(rest, pat, to)) =~= piece + replace_all(
            rest,
            pat,
            to,
        ));
    }
}

/// Replacing goes from the left: up to the first occurrence of the pattern the
/// text is copied, the occurrence is replaced, and the rest is treated alike. A
/// text in which the pattern does not occur stays as it is.
pub proof fn lemma_replace(before: Seq<char>, rest: Seq<char>, pat: Seq<char>, to: Seq<char>)
    requires
        pat.len() > 0,
        forall|i: int| 0 <= i < before.len() ==> !occurs_at(before + (pat + rest), pat, i),
    ensures
        replace_all(before + (pat + rest), pat, to) == before + (to + replace_all(rest, pat, to)),
        !occurs(rest, pat) ==> replace_all(rest, pat, to) == rest,
{
    lemma_replace_copies(before, pat + rest, pat, to);
    assert((pat + rest).subrange(0, pat.len() as int) =~= pat);
    assert((pat + rest).skip(pat.len() as int) =~= rest);
    if !occurs(rest, pat) {
        let none = Seq::<char>::empty();
        assert(rest + none =~= rest);
        assert forall|i: int| 0 <= i < rest.len() implies !occurs_at(rest + none, pat, i) by {
            assert(!occurs_at(rest, pat, i));
        }
        lemma_replace_copies(rest, none, pat, to);
        assert(rest + replace_all(none, pat, to) =~= rest);
    }
}

/// The first characters of a text are a front of it: all of it where it is no
/// longer, else as many as were asked for.
pub proof fn lemma_at_most(s: Seq<char>, n: int)
    requires
        n >= 0,
    ensures
        at_most(s, n).is_prefix_of(s),
        at_most(s, n).len() == if s.len() <= n {
            s.len() as int
        } else {
            n
        },
{
}

/// The texts of strings are the strings' characters, place by place.
pub proof fn lemma_texts(parts: Seq<String>)
    ensures
        texts(parts).len() == parts.len(),
        forall|i: int| 0 <= i < parts.len() ==> #[trigger] texts(parts)[i] == parts[i]@,
{
}

/// Joined parts begin with the first of them; each further part comes behind the
/// separator.
pub proof fn lemma_joined(parts: Seq<Seq<char>>, part: Seq<char>, sep: Seq<char>)
    ensures
        joined(seq![part], sep) == part,
        parts.len() > 0 ==> joined(parts.push(part), sep) == joined(parts, sep) + sep + part,
        concat_all(seq![part]) == part,
        concat_all(parts.push(part)) == concat_all(parts) + part,
{
    assert(parts.push(part).drop_last() =~= parts);
    assert(seq![part].drop_last() =~= Seq::<Seq<char>>::empty());
    assert(concat_all(seq![part].drop_last()) =~= Seq::<char>::empty());
    assert(Seq::<char>::empty() + part =~= part);
}

/// The white space beyond ASCII: the no-break space, the line and paragraph
/// separators, and the blanks of various widths, the ideographic one among them.
pub proof fn lemma_wide_space(c: char)
    requires
        c > '~',
    ensures
        is_space(c) <==> c == '\u{85}' || c == '\u{a0}' || c == '\u{1680}' || ('\u{2000}' <= c
            && c <= '\u{200a}') || c == '\u{2028}' || c == '\u{2029}' || c == '\u{202f}' || c
            == '\u{205f}' || c == '\u{3000}',
{
}

/// A text begins with its first character alone, and its length in bytes is that of
/// its UTF-8 encoding.
pub proof fn lemma_begins_and_bytes(s: Seq<char>, c: char, d: char)
    ensures
        begins_with(seq![c] + s, d) <==> c == d,
        !begins_with(Seq::empty(), d),
        utf8_len(s) == encode_utf8(s).len(),
{
}

/// An optional text is the characters of the text, where there is one.
pub proof fn lemma_optional_texts(s: String, t: &str)
    ensures
        opt_string(Some(s)) == Some(s@),
        opt_string(None) is None,
        opt_text(Some(t)) == Some(t@),
        opt_text(None) is None,
{
}

} // verus!

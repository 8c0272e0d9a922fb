//! Characters, whitespace and lines.

use vstd::prelude::*;

verus! {

broadcast use vstd::string::group_string_axioms;

/// `String::push` of the standard library appends one character to the
/// string and leaves the characters before it as they were.
pub assume_specification[ String::push ](s: &mut String, ch: char)
    ensures
        final(s)@ == old(s)@.push(ch),
;

/// The lowercase form that the standard library gives a string. It follows
/// the Unicode case mappings, in which one character may become several, so
/// it is named here and not spelled out.
pub uninterp spec fn unicode_lowercase(s: Seq<char>) -> Seq<char>;

/// `str::to_lowercase` of the standard library returns the lowercase form of
/// the whole string as a new `String`; the result depends on the characters
/// of the string alone.
pub assume_specification[ str::to_lowercase ](s: &str) -> (lowered: String)
    ensures
        lowered@ == unicode_lowercase(s@),
;

/// The characters of `s`, in order.
pub(crate) fn chars_of(s: &str) -> (v: Vec<char>)
    ensures
        v@ == s@,
{
    let mut v: Vec<char> = Vec::new();
    for c in it: s.chars()
        invariant
            it.seq() == s@,
            v@ == s@.take(it.index()),
    {
        v.push(c);
    }
    v
}

/// The string made of the characters of `v` from `from` up to `to`.
pub(crate) fn string_of(v: &Vec<char>, from: usize, to: usize) -> (s: String)
    requires
        from <= to <= v.len(),
    ensures
        s@ == v@.subrange(from as int, to as int),
{
    let mut s = String::new();
    let mut i: usize = from;
    while i < to
        invariant
            from <= i <= to <= v.len(),
            s@ == v@.subrange(from as int, i as int),
        decreases to - i,
    {
        s.push(v[i]);
        i += 1;
        assert(s@ =~= v@.subrange(from as int, i as int));
    }
    s
}

/// `parts` with `c` put in front of its first part.
pub open spec fn extend_first(c: char, parts: Seq<Seq<char>>) -> Seq<Seq<char>> {
    parts.update(0, seq![c] + parts[0])
}

/// The lines of the text from position `i` on, the first of them being the
/// rest of the line that `i` stands in. A line ends with a line feed, or
/// with a carriage return and a line feed; neither belongs to the line. The
/// last line needs no ending, and a text that ends with a line ending has no
/// empty line after it.
pub open spec fn lines_from(text: Seq<char>, i: int) -> Seq<Seq<char>>
    decreases text.len() - i,
{
    if i < 0 || i >= text.len() {
        Seq::empty()
    } else if text[i] == '\n' {
        seq![Seq::<char>::empty()] + lines_from(text, i + 1)
    } else if text[i] == '\r' && i + 1 < text.len() && text[i + 1] == '\n' {
        seq![Seq::<char>::empty()] + lines_from(text, i + 2)
    } else {
        let rest = lines_from(text, i + 1);
        if rest.len() == 0 {
            seq![seq![text[i]]]
        } else {
            extend_first(text[i], rest)
        }
    }
}

/// The lines of a text.
pub open spec fn lines_of(text: Seq<char>) -> Seq<Seq<char>> {
    lines_from(text, 0)
}

/// The lines already closed, then the open line continued by what is still
/// to come. An open line without characters has not begun.
spec fn lines_joined(done: Seq<Seq<char>>, open: Seq<char>, rest: Seq<Seq<char>>) -> Seq<
    Seq<char>,
> {
    if open.len() == 0 {
        done + rest
    } else if rest.len() == 0 {
        done.push(open)
    } else {
        done.push(open + rest[0]) + rest.skip(1)
    }
}

/// The characters with the Unicode property White_Space: the ASCII space and
/// the controls from tab to carriage return, next line, the no-break spaces,
/// the Ogham space mark, the spaces of fixed width, the line and paragraph
/// separators, the medium mathematical space and the ideographic space.
pub open spec fn white_space(c: char) -> bool {
    let n = c as u32;
    ||| 0x09 <= n <= 0x0D
    ||| n == 0x20
    ||| n == 0x85
    ||| n == 0xA0
    ||| n == 0x1680
    ||| 0x2000 <= n <= 0x200A
    ||| n == 0x2028
    ||| n == 0x2029
    ||| n == 0x202F
    ||| n == 0x205F
    ||| n == 0x3000
}

/// `s` without the whitespace it starts with.
pub open spec fn trimmed_start(s: Seq<char>) -> Seq<char>
    decreases s.len(),
{
    if s.len() > 0 && white_space(s[0]) {
        trimmed_start(s.skip(1))
    } else {
        s
    }
}

/// `s` without the whitespace it ends with.
pub open spec fn trimmed_end(s: Seq<char>) -> Seq<char>
    decreases s.len(),
{
    if s.len() > 0 && white_space(s.last()) {
        trimmed_end(s.drop_last())
    } else {
        s
    }
}

/// `s` without the whitespace at either end.
pub open spec fn trimmed(s: Seq<char>) -> Seq<char> {
    trimmed_end(trimmed_start(s))
}

/// Every character of `s` is whitespace.
pub open spec fn blank(s: Seq<char>) -> bool {
    forall|i: int| 0 <= i < s.len() ==> white_space(#[trigger] s[i])
}

/// Trimming at the start drops exactly the whitespace before the first
/// character that is none.
pub proof fn lemma_trimmed_start(s: Seq<char>, k: int)
    requires
        0 <= k <= s.len(),
        blank(s.take(k)),
        k < s.len() ==> !white_space(s[k]),
    ensures
        trimmed_start(s) == s.skip(k),
    decreases k,
{
    if k == 0 {
        assert(s.skip(0) =~= s);
    } else {
        assert(s.take(k)[0] == s[0]);
        let t = s.skip(1);
        assert forall|i: int| 0 <= i < t.take(k - 1).len() implies white_space(
            #[trigger] t.take(k - 1)[i],
        ) by {
            assert(t.take(k - 1)[i] == s.take(k)[i + 1]);
        }
        lemma_trimmed_start(t, k - 1);
        assert(t.skip(k - 1) =~= s.skip(k));
    }
}

/// Trimming at the end drops exactly the whitespace after the last character
/// that is none.
pub proof fn lemma_trimmed_end(s: Seq<char>, k: int)
    requires
        0 <= k <= s.len(),
        blank(s.skip(k)),
        k > 0 ==> !white_space(s[k - 1]),
    ensures
        trimmed_end(s) == s.take(k),
    decreases s.len() - k,
{
    if k == s.len() {
        assert(s.take(k) =~= s);
    } else {
        assert(s.skip(k)[s.len() - k - 1] == s.last());
        let t = s.drop_last();
        assert forall|i: int| 0 <= i < t.skip(k).len() implies white_space(
            #[trigger] t.skip(k)[i],
        ) by {
            assert(t.skip(k)[i] == s.skip(k)[i]);
        }
        lemma_trimmed_end(t, k);
        assert(t.take(k) =~= s.take(k));
    }
}

/// A string of whitespace alone trims to the empty string, and only such a
/// string does.
pub proof fn lemma_trimmed_blank(s: Seq<char>)
    ensures
        trimmed(s).len() == 0 <==> blank(s),
    decreases s.len(),
{
    if s.len() > 0 && white_space(s[0]) {
        lemma_trimmed_blank(s.skip(1));
        let t = s.skip(1);
        if blank(s) {
            assert forall|i: int| 0 <= i < t.len() implies white_space(#[trigger] t[i]) by {
                assert(t[i] == s[i + 1]);
            }
        }
        if blank(t) {
            assert forall|i: int| 0 <= i < s.len() implies white_space(#[trigger] s[i]) by {
                if i > 0 {
                    assert(s[i] == t[i - 1]);
                }
            }
        }
    } else if s.len() > 0 {
        lemma_trimmed_end_keeps_head(s);
    }
}

/// Trimming at the end never removes a first character that is no
/// whitespace.
proof fn lemma_trimmed_end_keeps_head(s: Seq<char>)
    requires
        s.len() > 0,
        !white_space(s[0]),
    ensures
        trimmed_end(s).len() > 0,
    decreases s.len(),
{
    if white_space(s.last()) {
        assert(s.len() > 1);
        lemma_trimmed_end_keeps_head(s.drop_last());
    }
}

/// Whether `c` is whitespace.
pub fn is_white_space(c: char) -> (b: bool)
    ensures
        b == white_space(c),
{
    let n = c as u32;
    (0x09 <= n && n <= 0x0D) || n == 0x20 || n == 0x85 || n == 0xA0 || n == 0x1680 || (0x2000 <= n
        && n <= 0x200A) || n == 0x2028 || n == 0x2029 || n == 0x202F || n == 0x205F || n
        == 0x3000
}

/// `s` without the whitespace at either end.
pub fn trim(s: &str) -> (t: String)
    ensures
        t@ == trimmed(s@),
{
    let v = chars_of(s);
    let mut start: usize = 0;
    while start < v.len() && is_white_space(v[start])
        invariant
            start <= v.len(),
            blank(v@.take(start as int)),
        decreases v.len() - start,
    {
        start += 1;
    }
    let mut end: usize = v.len();
    while end > start && is_white_space(v[end - 1])
        invariant
            start <= end <= v.len(),
            blank(v@.skip(end as int)),
        decreases end,
    {
        proof {
            let wider = v@.skip(end - 1);
            assert forall|i: int| 0 <= i < wider.len() implies white_space(#[trigger] wider[i]) by {
                if i > 0 {
                    assert(wider[i] == v@.skip(end as int)[i - 1]);
                }
            }
        }
        end -= 1;
    }
    proof {
        lemma_trimmed_start(v@, start as int);
        let rest = v@.skip(start as int);
        let k = end - start;
        assert(rest.skip(k) =~= v@.skip(end as int));
        if k > 0 {
            assert(rest[k - 1] == v@[end - 1]);
        }
        lemma_trimmed_end(rest, k);
        assert(rest.take(k) =~= v@.subrange(start as int, end as int));
    }
    string_of(&v, start, end)
}

/// Splits a text into its lines, without their line endings.
pub fn lines(text: &str) -> (out: Vec<String>)
    ensures
        out.deep_view() == lines_of(text@),
{
    let v = chars_of(text);
    let mut out: Vec<String> = Vec::new();
    let mut line = String::new();
    let mut i: usize = 0;
    assert(out.deep_view() =~= Seq::empty());
    assert(lines_joined(Seq::empty(), line@, lines_from(v@, 0)) =~= lines_from(v@, 0));
    while i < v.len()
        invariant
            v@ == text@,
            i <= v.len(),
            lines_joined(out.deep_view(), line@, lines_from(v@, i as int)) == lines_of(text@),
        decreases v.len() - i,
    {
        let c = v[i];
        let ghost done = out.deep_view();
        let ghost open = line@;
        let ends_line = c == '\n';
        let ends_line_in_two = c == '\r' && i + 1 < v.len() && v[i + 1] == '\n';
        if ends_line || ends_line_in_two {
            let next: usize = if ends_line { i + 1 } else { i + 2 };
            proof {
                let rest = lines_from(v@, next as int);
                let here = seq![Seq::<char>::empty()] + rest;
                assert(here == lines_from(v@, i as int));
                assert(here.skip(1) =~= rest);
                assert(open + here[0] =~= open);
                if open.len() == 0 {
                    assert(done + here =~= done.push(open) + rest);
                }
                assert(lines_joined(done, open, here) == done.push(open) + rest);
            }
            out.push(line);
            line = String::new();
            i = next;
            assert(out.deep_view() =~= done.push(open));
        } else {
            proof {
                let rest = lines_from(v@, i + 1);
                let here = lines_from(v@, i as int);
                if rest.len() == 0 {
                    assert(open + here[0] =~= open.push(c));
                    assert(done.push(open + here[0]) + here.skip(1) =~= done.push(open.push(c)));
                    assert(done + here =~= done.push(seq![c]));
                    assert(Seq::<char>::empty().push(c) =~= seq![c]);
                } else {
                    assert(open + here[0] =~= open.push(c) + rest[0]);
                    assert(here.skip(1) =~= rest.skip(1));
                    assert(done + here =~= done.push(here[0]) + here.skip(1));
                    assert(Seq::<char>::empty() + here[0] =~= here[0]);
                    assert(seq![c] + rest[0] =~= Seq::<char>::empty().push(c) + rest[0]);
                }
                assert(lines_joined(done, open, here) == lines_joined(done, open.push(c), rest));
            }
            line.push(c);
            i += 1;
        }
    }
    let ghost done = out.deep_view();
    if !line.as_str().is_empty() {
        out.push(line);
        assert(out.deep_view() =~= done.push(line@));
    } else {
        assert(done + lines_from(v@, i as int) =~= done);
    }
    out
}

} // verus!

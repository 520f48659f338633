//! Character-level text handling shared by the input-file parser, the
//! report writers and the interactive shell: whitespace classes, trimming,
//! comment stripping, tokenizing, line splitting, and integer text.
use vstd::prelude::*;

verus! {

// ---------------------------------------------------------------------------
// Character classes
// ---------------------------------------------------------------------------

/// Unicode `White_Space` (the class that `str::trim` removes).
pub open spec fn is_ws(c: char) -> bool {
    ||| ('\u{9}' <= c && c <= '\u{d}')
    ||| c == ' '
    ||| c == '\u{85}'
    ||| c == '\u{a0}'
    ||| c == '\u{1680}'
    ||| ('\u{2000}' <= c && c <= '\u{200a}')
    ||| c == '\u{2028}'
    ||| c == '\u{2029}'
    ||| c == '\u{202f}'
    ||| c == '\u{205f}'
    ||| c == '\u{3000}'
}

/// ASCII whitespace: space, tab, line feed, form feed, carriage return.
pub open spec fn is_ascii_ws(c: char) -> bool {
    c == ' ' || c == '\t' || c == '\n' || c == '\u{c}' || c == '\r'
}

/// Field separators of the input format: a comma or ASCII whitespace.
pub open spec fn is_separator(c: char) -> bool {
    c == ',' || is_ascii_ws(c)
}

pub open spec fn is_digit(c: char) -> bool {
    '0' <= c && c <= '9'
}

pub open spec fn digit_value(c: char) -> int {
    c as int - '0' as int
}

pub fn is_whitespace(c: char) -> (b: bool)
    ensures
        b == is_ws(c),
{
    ('\u{9}' <= c && c <= '\u{d}') || c == ' ' || c == '\u{85}' || c == '\u{a0}' || c
        == '\u{1680}' || ('\u{2000}' <= c && c <= '\u{200a}') || c == '\u{2028}' || c
        == '\u{2029}' || c == '\u{202f}' || c == '\u{205f}' || c == '\u{3000}'
}

pub fn is_separator_char(c: char) -> (b: bool)
    ensures
        b == is_separator(c),
{
    c == ',' || c == ' ' || c == '\t' || c == '\n' || c == '\u{c}' || c == '\r'
}

pub fn is_digit_char(c: char) -> (b: bool)
    ensures
        b == is_digit(c),
{
    '0' <= c && c <= '9'
}

// ---------------------------------------------------------------------------
// Building strings
// ---------------------------------------------------------------------------

/// Appends one character to a string (`String::push`).
#[verifier::external_body]
pub(crate) fn push_char(s: &mut String, c: char)
    ensures
        final(s)@ == old(s)@.push(c),
{
    s.push(c);
}

/// Appends a string slice to a string.
pub(crate) fn push_str(s: &mut String, t: &str)
    ensures
        final(s)@ == old(s)@ + t@,
{
    s.append(t);
}

/// The characters of a string slice, in order.
pub fn chars_of(s: &str) -> (out: Vec<char>)
    ensures
        out@ == s@,
{
    let mut out: Vec<char> = Vec::new();
    for c in it: s.chars()
        invariant
            out@ == it.seq().take(it.index() as int),
            it.seq() == s@,
    {
        out.push(c);
    }
    out
}

/// A new string holding `chars[from..to]`.
pub fn string_of(chars: &Vec<char>, from: usize, to: usize) -> (s: String)
    requires
        from <= to <= chars.len(),
    ensures
        s@ == chars@.subrange(from as int, to as int),
{
    let mut s = String::new();
    let mut i = from;
    while i < to
        invariant
            from <= i <= to <= chars.len(),
            s@ == chars@.subrange(from as int, i as int),
        decreases to - i,
    {
        push_char(&mut s, chars[i]);
        i += 1;
    }
    s
}

// ---------------------------------------------------------------------------
// Searching
// ---------------------------------------------------------------------------

/// Index of the first occurrence of `c` in `s`, or `s.len()` when absent.
pub open spec fn first_index(s: Seq<char>, c: char) -> nat
    decreases s.len(),
{
    if s.len() == 0 {
        0
    } else if s[0] == c {
        0
    } else {
        1 + first_index(s.drop_first(), c)
    }
}

pub proof fn lemma_first_index(s: Seq<char>, c: char, i: int)
    requires
        0 <= i <= s.len(),
        forall|k: int| 0 <= k < i ==> s[k] != c,
        i == s.len() || s[i] == c,
    ensures
        first_index(s, c) == i,
    decreases i,
{
    if i > 0 {
        lemma_first_index(s.drop_first(), c, i - 1);
    }
}

pub proof fn lemma_first_index_bound(s: Seq<char>, c: char)
    ensures
        first_index(s, c) <= s.len(),
        first_index(s, c) < s.len() ==> s[first_index(s, c) as int] == c,
        forall|k: int| 0 <= k < first_index(s, c) ==> s[k] != c,
    decreases s.len(),
{
    if s.len() > 0 && s[0] != c {
        lemma_first_index_bound(s.drop_first(), c);
        assert forall|k: int| 0 <= k < first_index(s, c) implies s[k] != c by {
            if k > 0 {
                assert(s[k] == s.drop_first()[k - 1]);
            }
        }
    }
}

/// Position of the first `c` in `chars[from..]` (as an absolute index), or `chars.len()`.
pub fn find_char(chars: &Vec<char>, from: usize, c: char) -> (p: usize)
    requires
        from <= chars.len(),
    ensures
        from <= p <= chars.len(),
        p - from == first_index(chars@.skip(from as int), c),
{
    let mut p = from;
    while p < chars.len() && chars[p] != c
        invariant
            from <= p <= chars.len(),
            forall|k: int| from <= k < p ==> chars@[k] != c,
        decreases chars.len() - p,
    {
        p += 1;
    }
    proof {
        let t = chars@.skip(from as int);
        assert forall|k: int| 0 <= k < p - from implies t[k] != c by {
            assert(t[k] == chars@[from + k]);
        }
        lemma_first_index(t, c, p - from);
    }
    p
}

// ---------------------------------------------------------------------------
// Trimming
// ---------------------------------------------------------------------------

pub open spec fn trim_start(s: Seq<char>) -> Seq<char>
    decreases s.len(),
{
    if s.len() > 0 && is_ws(s[0]) {
        trim_start(s.drop_first())
    } else {
        s
    }
}

pub open spec fn trim_end(s: Seq<char>) -> Seq<char>
    decreases s.len(),
{
    if s.len() > 0 && is_ws(s.last()) {
        trim_end(s.drop_last())
    } else {
        s
    }
}

/// `s` without leading and trailing Unicode whitespace (`str::trim`).
pub open spec fn trim(s: Seq<char>) -> Seq<char> {
    trim_end(trim_start(s))
}

/// Whether `s` holds nothing but whitespace.
pub open spec fn is_blank(s: Seq<char>) -> bool {
    trim(s).len() == 0
}

/// Bounds `[a, b)` of `trim(chars[from..to])` within `chars`.
pub fn trim_bounds(chars: &Vec<char>, from: usize, to: usize) -> (r: (usize, usize))
    requires
        from <= to <= chars.len(),
    ensures
        from <= r.0 <= r.1 <= to,
        trim(chars@.subrange(from as int, to as int)) == chars@.subrange(r.0 as int, r.1 as int),
{
    let ghost s = chars@.subrange(from as int, to as int);
    let mut a = from;
    while a < to && is_whitespace(chars[a])
        invariant
            from <= a <= to <= chars.len(),
            s == chars@.subrange(from as int, to as int),
            trim_start(chars@.subrange(a as int, to as int)) == trim_start(s),
        decreases to - a,
    {
        assert(chars@.subrange(a as int, to as int).drop_first() =~= chars@.subrange(
            a + 1,
            to as int,
        ));
        a += 1;
    }
    let mut b = to;
    while b > a && is_whitespace(chars[b - 1])
        invariant
            from <= a <= b <= to <= chars.len(),
            trim_start(s) == chars@.subrange(a as int, to as int),
            trim_end(chars@.subrange(a as int, b as int)) == trim(s),
        decreases b - a,
    {
        assert(chars@.subrange(a as int, b as int).drop_last() =~= chars@.subrange(
            a as int,
            b - 1,
        ));
        b -= 1;
    }
    (a, b)
}

/// `s` without leading and trailing Unicode whitespace.
pub fn trim_str(s: &str) -> (t: &str)
    ensures
        t@ == trim(s@),
{
    let chars = chars_of(s);
    let (a, b) = trim_bounds(&chars, 0, chars.len());
    assert(chars@.subrange(0, chars@.len() as int) =~= chars@);
    s.substring_char(a, b)
}

// ---------------------------------------------------------------------------
// Comments, tokens and lines
// ---------------------------------------------------------------------------

/// The part of a line before its first `#`.
pub open spec fn strip_comment_spec(s: Seq<char>) -> Seq<char> {
    s.take(first_index(s, '#') as int)
}

/// Remove a trailing `#` comment from a line.
pub fn strip_comment(line: &str) -> (r: &str)
    ensures
        r@ == strip_comment_spec(line@),
{
    let chars = chars_of(line);
    let p = find_char(&chars, 0, '#');
    assert(chars@.skip(0) =~= chars@);
    line.substring_char(0, p)
}

/// Splitting a line into fields: `cur` is the field being read.
pub open spec fn split_fields(s: Seq<char>, cur: Seq<char>) -> Seq<Seq<char>>
    decreases s.len(),
{
    if s.len() == 0 {
        if cur.len() > 0 {
            seq![cur]
        } else {
            seq![]
        }
    } else if is_separator(s[0]) {
        (if cur.len() > 0 {
            seq![cur]
        } else {
            seq![]
        }) + split_fields(s.drop_first(), seq![])
    } else {
        split_fields(s.drop_first(), cur.push(s[0]))
    }
}

/// The non-empty fields of `s` between separators.
pub open spec fn tokens(s: Seq<char>) -> Seq<Seq<char>> {
    split_fields(s, seq![])
}

pub open spec fn views(v: Seq<String>) -> Seq<Seq<char>> {
    v.map_values(|x: String| x@)
}

pub proof fn lemma_views_push(v: Seq<String>, x: String)
    ensures
        views(v.push(x)) == views(v).push(x@),
{
    assert(views(v.push(x)) =~= views(v).push(x@));
}

/// Fields of `chars`, as in [`tokens`].
pub fn tokenize_chars(chars: &Vec<char>) -> (out: Vec<String>)
    ensures
        views(out@) == tokens(chars@),
{
    let mut out: Vec<String> = Vec::new();
    let mut start: usize = 0;
    let mut i: usize = 0;
    assert(views(out@) =~= Seq::<Seq<char>>::empty());
    assert(chars@.skip(0) =~= chars@);
    assert(chars@.subrange(0, 0) =~= Seq::<char>::empty());
    while i < chars.len()
        invariant
            start <= i <= chars.len(),
            views(out@) + split_fields(chars@.skip(i as int), chars@.subrange(start as int, i as int))
                == tokens(chars@),
        decreases chars.len() - i,
    {
        let ghost cur = chars@.subrange(start as int, i as int);
        let ghost rest = chars@.skip(i as int);
        assert(rest.drop_first() =~= chars@.skip(i + 1));
        if is_separator_char(chars[i]) {
            if start < i {
                let tok = string_of(chars, start, i);
                let ghost prev = out@;
                out.push(tok);
                proof {
                    lemma_views_push(prev, tok);
                }
            } else {
                assert(cur =~= seq![]);
            }
            assert(chars@.subrange(i + 1, i + 1) =~= Seq::<char>::empty());
            start = i + 1;
        } else {
            assert(chars@.subrange(start as int, i + 1) =~= cur.push(chars@[i as int]));
        }
        i += 1;
    }
    proof {
        let cur = chars@.subrange(start as int, i as int);
        assert(chars@.skip(i as int) =~= Seq::<char>::empty());
    }
    if start < chars.len() {
        let tok = string_of(chars, start, chars.len());
        let ghost prev = out@;
        out.push(tok);
        proof {
            lemma_views_push(prev, tok);
        }
    }
    out
}

/// Split on commas and/or ASCII whitespace, dropping empty tokens.
pub fn tokenize(line: &str) -> (out: Vec<String>)
    ensures
        views(out@) == tokens(line@),
{
    let chars = chars_of(line);
    tokenize_chars(&chars)
}

/// A line with one trailing carriage return removed.
pub open spec fn drop_cr(l: Seq<char>) -> Seq<char> {
    if l.len() > 0 && l.last() == '\r' {
        l.drop_last()
    } else {
        l
    }
}

/// The lines of `s` as `str::lines` yields them: split at `\n`, a `\r`
/// right before a `\n` dropped, no empty line after a final `\n`.
pub open spec fn lines(s: Seq<char>) -> Seq<Seq<char>>
    decreases s.len(),
{
    if s.len() == 0 {
        seq![]
    } else {
        let i = first_index(s, '\n');
        if i < s.len() {
            seq![drop_cr(s.take(i as int))] + lines(s.skip(i as int + 1))
        } else {
            seq![s]
        }
    }
}

/// The lines of `chars`, as in [`lines`].
pub fn split_lines(chars: &Vec<char>) -> (out: Vec<String>)
    ensures
        views(out@) == lines(chars@),
{
    let mut out: Vec<String> = Vec::new();
    let mut start: usize = 0;
    assert(views(out@) =~= Seq::<Seq<char>>::empty());
    assert(chars@.skip(0) =~= chars@);
    while start < chars.len()
        invariant
            start <= chars.len(),
            views(out@) + lines(chars@.skip(start as int)) == lines(chars@),
        decreases chars.len() - start,
    {
        let ghost rest = chars@.skip(start as int);
        let p = find_char(chars, start, '\n');
        proof {
            lemma_first_index_bound(rest, '\n');
        }
        if p < chars.len() {
            let end = if p > start && chars[p - 1] == '\r' {
                p - 1
            } else {
                p
            };
            let line = string_of(chars, start, end);
            assert(rest.take(p - start) =~= chars@.subrange(start as int, p as int));
            assert(line@ == drop_cr(rest.take(p - start))) by {
                if p > start && chars@[p - 1] == '\r' {
                    assert(chars@.subrange(start as int, p as int).drop_last()
                        =~= chars@.subrange(start as int, p - 1));
                }
            }
            assert(rest.skip(p - start + 1) =~= chars@.skip(p + 1));
            let ghost prev = out@;
            out.push(line);
            proof {
                lemma_views_push(prev, line);
            }
            assert(lines(rest) == seq![line@] + lines(chars@.skip(p + 1)));
            assert(views(out@) + lines(chars@.skip(p + 1)) =~= views(prev) + lines(rest));
            start = p + 1;
        } else {
            let line = string_of(chars, start, chars.len());
            assert(line@ =~= rest);
            let ghost prev = out@;
            out.push(line);
            proof {
                lemma_views_push(prev, line);
            }
            assert(chars@.skip(chars.len() as int) =~= Seq::<char>::empty());
            start = chars.len();
        }
    }
    assert(chars@.skip(start as int) =~= Seq::<char>::empty());
    assert(views(out@) + lines(chars@.skip(start as int)) =~= views(out@));
    out
}

/// Fields joined by commas.
pub open spec fn join_fields(fs: Seq<Seq<char>>) -> Seq<char>
    decreases fs.len(),
{
    if fs.len() == 0 {
        seq![]
    } else if fs.len() == 1 {
        fs[0]
    } else {
        join_fields(fs.drop_last()) + seq![','] + fs.last()
    }
}

/// Lines, each followed by a line feed.
pub open spec fn text_of_lines(ls: Seq<Seq<char>>) -> Seq<char>
    decreases ls.len(),
{
    if ls.len() == 0 {
        seq![]
    } else {
        text_of_lines(ls.drop_last()) + ls.last() + seq!['\n']
    }
}

pub proof fn lemma_join_push(fs: Seq<Seq<char>>, f: Seq<char>)
    requires
        fs.len() >= 1,
    ensures
        join_fields(fs.push(f)) == join_fields(fs) + seq![','] + f,
{
    assert(fs.push(f).drop_last() =~= fs);
}

pub proof fn lemma_text_push(ls: Seq<Seq<char>>, l: Seq<char>)
    ensures
        text_of_lines(ls.push(l)) == text_of_lines(ls) + l + seq!['\n'],
{
    assert(ls.push(l).drop_last() =~= ls);
}

// ---------------------------------------------------------------------------
// Facts about the text specifications
// ---------------------------------------------------------------------------

pub proof fn lemma_trim_same(s: Seq<char>)
    requires
        s.len() == 0 || (!is_ws(s[0]) && !is_ws(s.last())),
    ensures
        trim(s) == s,
{
}

pub proof fn lemma_trim_start_suffix(s: Seq<char>)
    ensures
        trim_start(s).len() <= s.len(),
        trim_start(s) == s.skip(s.len() - trim_start(s).len()),
        trim_start(s).len() > 0 ==> !is_ws(trim_start(s)[0]),
    decreases s.len(),
{
    if s.len() > 0 && is_ws(s[0]) {
        lemma_trim_start_suffix(s.drop_first());
        assert(s.drop_first().skip(s.drop_first().len() - trim_start(s).len()) =~= s.skip(
            s.len() - trim_start(s).len(),
        ));
    } else {
        assert(s.skip(0) =~= s);
    }
}

pub proof fn lemma_trim_end_prefix(s: Seq<char>)
    ensures
        trim_end(s).len() <= s.len(),
        trim_end(s) == s.take(trim_end(s).len() as int),
        trim_end(s).len() > 0 ==> !is_ws(trim_end(s).last()),
        s.len() > 0 && !is_ws(s[0]) ==> trim_end(s).len() > 0,
    decreases s.len(),
{
    if s.len() > 0 && is_ws(s.last()) {
        lemma_trim_end_prefix(s.drop_last());
        assert(s.drop_last().take(trim_end(s).len() as int) =~= s.take(trim_end(s).len() as int));
        if s.len() > 0 && !is_ws(s[0]) {
            assert(s.len() > 1);
            assert(s.drop_last()[0] == s[0]);
        }
    } else {
        assert(s.take(s.len() as int) =~= s);
    }
}

/// `trim(s)` is a piece of `s` that neither starts nor ends with whitespace.
pub proof fn lemma_trim(s: Seq<char>)
    ensures
        ({
            let t = trim(s);
            let k = s.len() - trim_start(s).len();
            &&& 0 <= k && k + t.len() <= s.len()
            &&& t == s.subrange(k, k + t.len())
            &&& t.len() > 0 ==> !is_ws(t[0]) && !is_ws(t.last())
            &&& trim(t) == t
        }),
{
    let u = trim_start(s);
    lemma_trim_start_suffix(s);
    lemma_trim_end_prefix(u);
    let t = trim(s);
    let k = s.len() - u.len();
    assert(t =~= s.subrange(k, k + t.len()));
    if t.len() > 0 {
        assert(t[0] == u[0]);
    }
    lemma_trim_same(t);
}

/// A line that does not start with whitespace is not blank.
pub proof fn lemma_not_blank(s: Seq<char>)
    requires
        s.len() > 0,
        !is_ws(s[0]),
    ensures
        !is_blank(s),
{
    lemma_trim_end_prefix(s);
}

pub proof fn lemma_strip_comment_none(s: Seq<char>)
    requires
        forall|i: int| 0 <= i < s.len() ==> s[i] != '#',
    ensures
        strip_comment_spec(s) == s,
{
    lemma_first_index(s, '#', s.len() as int);
    assert(s.take(s.len() as int) =~= s);
}

pub proof fn lemma_strip_comment_line(s: Seq<char>)
    requires
        s.len() > 0,
        s[0] == '#',
    ensures
        strip_comment_spec(s) == Seq::<char>::empty(),
        is_blank(strip_comment_spec(s)),
{
    assert(s.take(0) =~= Seq::<char>::empty());
}

/// A character that can stand inside a field of the input format.
pub open spec fn field_char(c: char) -> bool {
    !is_separator(c) && !is_ws(c) && c != '#'
}

/// A non-empty field made of field characters.
pub open spec fn field_text(f: Seq<char>) -> bool {
    f.len() > 0 && forall|i: int| 0 <= i < f.len() ==> field_char(#[trigger] f[i])
}

proof fn lemma_split_fields_clean(s: Seq<char>, cur: Seq<char>)
    requires
        forall|j: int| 0 <= j < cur.len() ==> !is_separator(#[trigger] cur[j]),
    ensures
        forall|i: int|
            0 <= i < split_fields(s, cur).len() ==> (#[trigger] split_fields(s, cur)[i]).len() > 0
                && forall|j: int|
                0 <= j < split_fields(s, cur)[i].len() ==> !is_separator(
                    #[trigger] split_fields(s, cur)[i][j],
                ),
    decreases s.len(),
{
    if s.len() > 0 {
        if is_separator(s[0]) {
            lemma_split_fields_clean(s.drop_first(), seq![]);
            let head: Seq<Seq<char>> = if cur.len() > 0 {
                seq![cur]
            } else {
                seq![]
            };
            let rest = split_fields(s.drop_first(), seq![]);
            assert(split_fields(s, cur) == head + rest);
            assert forall|i: int|
                0 <= i < split_fields(s, cur).len() implies (#[trigger] split_fields(
                s,
                cur,
            )[i]).len() > 0 && forall|j: int|
                0 <= j < split_fields(s, cur)[i].len() ==> !is_separator(
                    #[trigger] split_fields(s, cur)[i][j],
                ) by {
                if i < head.len() {
                    assert(split_fields(s, cur)[i] == cur);
                } else {
                    assert(split_fields(s, cur)[i] == rest[i - head.len()]);
                }
            }
        } else {
            let c2 = cur.push(s[0]);
            assert forall|j: int| 0 <= j < c2.len() implies !is_separator(#[trigger] c2[j]) by {
                if j < cur.len() {
                    assert(c2[j] == cur[j]);
                }
            }
            lemma_split_fields_clean(s.drop_first(), c2);
            assert(split_fields(s, cur) == split_fields(s.drop_first(), c2));
        }
    } else {
        if cur.len() > 0 {
            assert(split_fields(s, cur) == seq![cur]);
            assert forall|i: int|
                0 <= i < split_fields(s, cur).len() implies (#[trigger] split_fields(
                s,
                cur,
            )[i]).len() > 0 && forall|j: int|
                0 <= j < split_fields(s, cur)[i].len() ==> !is_separator(
                    #[trigger] split_fields(s, cur)[i][j],
                ) by {
                assert(split_fields(s, cur)[i] == cur);
            }
        } else {
            assert(split_fields(s, cur) == Seq::<Seq<char>>::empty());
        }
    }
}

/// Fields are never empty and never hold a separator.
pub proof fn lemma_tokens_clean(s: Seq<char>)
    ensures
        forall|i: int|
            0 <= i < tokens(s).len() ==> (#[trigger] tokens(s)[i]).len() > 0 && forall|j: int|
                0 <= j < tokens(s)[i].len() ==> !is_separator(#[trigger] tokens(s)[i][j]),
{
    lemma_split_fields_clean(s, seq![]);
}

proof fn lemma_split_chunk(f: Seq<char>, t: Seq<char>, cur: Seq<char>)
    requires
        forall|i: int| 0 <= i < f.len() ==> !is_separator(#[trigger] f[i]),
    ensures
        split_fields(f + t, cur) == split_fields(t, cur + f),
    decreases f.len(),
{
    if f.len() > 0 {
        assert((f + t)[0] == f[0]);
        assert((f + t).drop_first() =~= f.drop_first() + t);
        assert forall|i: int| 0 <= i < f.drop_first().len() implies !is_separator(
            #[trigger] f.drop_first()[i],
        ) by {
            assert(f.drop_first()[i] == f[i + 1]);
        }
        lemma_split_chunk(f.drop_first(), t, cur.push(f[0]));
        assert(cur.push(f[0]) + f.drop_first() =~= cur + f);
    } else {
        assert(f + t =~= t);
        assert(cur + f =~= cur);
    }
}

/// Two fields separated by a comma, a space, a tab, a carriage return, a line
/// feed or a form feed are read as those two fields.
pub proof fn lemma_two_fields(f1: Seq<char>, c: char, f2: Seq<char>)
    requires
        field_text(f1),
        field_text(f2),
        c == ',' || c == ' ' || c == '\t' || c == '\r' || c == '\n' || c == '\u{c}',
    ensures
        tokens(f1 + seq![c] + f2) == seq![f1, f2],
{
    assert forall|i: int| 0 <= i < f1.len() implies !is_separator(#[trigger] f1[i]) by {
        assert(field_char(f1[i]));
    }
    assert forall|i: int| 0 <= i < f2.len() implies !is_separator(#[trigger] f2[i]) by {
        assert(field_char(f2[i]));
    }
    let t = seq![c] + f2;
    assert(f1 + seq![c] + f2 =~= f1 + t);
    lemma_split_chunk(f1, t, seq![]);
    assert(Seq::<char>::empty() + f1 =~= f1);
    assert(t[0] == c);
    assert(t.drop_first() =~= f2);
    lemma_split_chunk(f2, seq![], seq![]);
    assert(f2 + Seq::<char>::empty() =~= f2);
    assert(Seq::<char>::empty() + f2 =~= f2);
    assert(split_fields(Seq::<char>::empty(), f2) == seq![f2]);
    assert(seq![f1] + seq![f2] =~= seq![f1, f2]);
}

pub proof fn lemma_join_front(f: Seq<char>, rest: Seq<Seq<char>>)
    requires
        rest.len() >= 1,
    ensures
        join_fields(seq![f] + rest) == f + seq![','] + join_fields(rest),
    decreases rest.len(),
{
    let all = seq![f] + rest;
    if rest.len() == 1 {
        assert(all.drop_last() =~= seq![f]);
        assert(join_fields(seq![f]) == f);
        assert(all.last() == rest[0]);
        assert(join_fields(rest) == rest[0]);
        assert(join_fields(all) == f + seq![','] + rest[0]);
    } else {
        let r = rest.drop_last();
        assert(all.drop_last() =~= seq![f] + r);
        lemma_join_front(f, r);
        assert(all.last() == rest.last());
        assert(join_fields(all) == join_fields(seq![f] + r) + seq![','] + rest.last());
        assert(join_fields(rest) == join_fields(r) + seq![','] + rest.last());
        assert(f + seq![','] + join_fields(r) + seq![','] + rest.last() =~= f + seq![','] + (
        join_fields(r) + seq![','] + rest.last()));
    }
}

/// Fields joined by commas split back into the same fields.
pub proof fn lemma_tokens_join(fs: Seq<Seq<char>>)
    requires
        fs.len() >= 1,
        forall|i: int| 0 <= i < fs.len() ==> field_text(#[trigger] fs[i]),
    ensures
        tokens(join_fields(fs)) == fs,
    decreases fs.len(),
{
    let f = fs[0];
    assert(field_text(f));
    if fs.len() == 1 {
        lemma_split_chunk(f, seq![], seq![]);
        assert(f + Seq::<char>::empty() =~= f);
        assert(Seq::<char>::empty() + f =~= f);
        assert(fs =~= seq![f]);
    } else {
        let rest = fs.drop_first();
        assert(fs =~= seq![f] + rest);
        lemma_join_front(f, rest);
        let jr = join_fields(rest);
        lemma_split_chunk(f, seq![','] + jr, seq![]);
        assert(f + seq![','] + jr =~= f + (seq![','] + jr));
        assert(Seq::<char>::empty() + f =~= f);
        assert((seq![','] + jr).drop_first() =~= jr);
        assert forall|i: int| 0 <= i < rest.len() implies field_text(#[trigger] rest[i]) by {
            assert(rest[i] == fs[i + 1]);
        }
        lemma_tokens_join(rest);
    }
}

pub proof fn lemma_text_concat(a: Seq<Seq<char>>, b: Seq<Seq<char>>)
    ensures
        text_of_lines(a + b) == text_of_lines(a) + text_of_lines(b),
    decreases b.len(),
{
    if b.len() == 0 {
        assert(a + b =~= a);
        assert(text_of_lines(a) + Seq::<char>::empty() =~= text_of_lines(a));
    } else {
        assert((a + b).drop_last() =~= a + b.drop_last());
        lemma_text_concat(a, b.drop_last());
        assert(text_of_lines(a) + text_of_lines(b.drop_last()) + b.last() + seq!['\n']
            =~= text_of_lines(a) + (text_of_lines(b.drop_last()) + b.last() + seq!['\n']));
    }
}

/// A line that `lines` gives back unchanged: no line feed, no final carriage return.
pub open spec fn line_ok(l: Seq<char>) -> bool {
    (forall|i: int| 0 <= i < l.len() ==> l[i] != '\n') && (l.len() == 0 || l.last() != '\r')
}

/// Lines written one per line read back as the same lines.
pub proof fn lemma_lines_text(ls: Seq<Seq<char>>)
    requires
        forall|i: int| 0 <= i < ls.len() ==> line_ok(#[trigger] ls[i]),
    ensures
        lines(text_of_lines(ls)) == ls,
    decreases ls.len(),
{
    if ls.len() > 0 {
        let l = ls[0];
        let rest = ls.drop_first();
        assert(ls =~= seq![l] + rest);
        lemma_text_concat(seq![l], rest);
        assert(seq![l].drop_last() =~= Seq::<Seq<char>>::empty());
        assert(text_of_lines(seq![l].drop_last()) == Seq::<char>::empty());
        assert(text_of_lines(seq![l]) =~= l + seq!['\n']);
        let s = text_of_lines(ls);
        assert(s =~= l + seq!['\n'] + text_of_lines(rest));
        assert(line_ok(l));
        lemma_first_index(s, '\n', l.len() as int);
        assert(s.take(l.len() as int) =~= l);
        assert(s.skip(l.len() as int + 1) =~= text_of_lines(rest));
        assert forall|i: int| 0 <= i < rest.len() implies line_ok(#[trigger] rest[i]) by {
            assert(rest[i] == ls[i + 1]);
        }
        lemma_lines_text(rest);
    }
}

/// No line holds a line feed.
pub proof fn lemma_lines_no_newline(s: Seq<char>)
    ensures
        forall|i: int, j: int|
            0 <= i < lines(s).len() && 0 <= j < lines(s)[i].len() ==> #[trigger] lines(s)[i][j]
                != '\n',
    decreases s.len(),
{
    if s.len() > 0 {
        let k = first_index(s, '\n');
        lemma_first_index_bound(s, '\n');
        if k < s.len() {
            lemma_lines_no_newline(s.skip(k as int + 1));
            let l = drop_cr(s.take(k as int));
            assert forall|i: int, j: int|
                0 <= i < lines(s).len() && 0 <= j < lines(s)[i].len() implies #[trigger] lines(
                s,
            )[i][j] != '\n' by {
                if i == 0 {
                    assert(lines(s)[0] == l);
                    assert(l[j] == s[j]);
                } else {
                    assert(lines(s)[i] == lines(s.skip(k as int + 1))[i - 1]);
                }
            }
        }
    }
}

} // verus!

//! Reading the lines that a command printed: splitting into lines as
//! `str::lines` does, trimming whitespace as `str::trim` does, and picking the
//! non-empty lines.

use vstd::prelude::*;

use crate::boundary::push_char;

verus! {

/// Whether `c` has the Unicode `White_Space` property, which is what
/// `char::is_whitespace` decides: U+0009 to U+000D, U+0020, U+0085, U+00A0,
/// U+1680, U+2000 to U+200A, U+2028, U+2029, U+202F, U+205F and U+3000.
pub open spec fn is_white_space(c: char) -> bool {
    ||| ('\u{9}' <= c && c <= '\u{d}')
    ||| c == ' '
    ||| c == '\u{85}'
    ||| c == '\u{a0}'
    ||| c == '\u{1680}'
    ||| ('\u{2000}' <= c && c <= '\u{200a}')
    ||| c == '\u{2028}'
    ||| c == '\u{2029}'
    ||| c == '\u{202f}'
    ||| c == '\u{205f}'
    ||| c == '\u{3000}'
}

/// Whether `c` is whitespace, as `char::is_whitespace` decides it.
pub fn is_whitespace(c: char) -> (b: bool)
    ensures
        b == is_white_space(c),
{
    ('\u{9}' <= c && c <= '\u{d}') || c == ' ' || c == '\u{85}' || c == '\u{a0}' || c
        == '\u{1680}' || ('\u{2000}' <= c && c <= '\u{200a}') || c == '\u{2028}' || c
        == '\u{2029}' || c == '\u{202f}' || c == '\u{205f}' || c == '\u{3000}'
}

/// How many whitespace characters `s` starts with.
pub open spec fn leading_ws(s: Seq<char>) -> nat
    decreases s.len(),
{
    if s.len() > 0 && is_white_space(s[0]) {
        1 + leading_ws(s.drop_first())
    } else {
        0
    }
}

/// How many whitespace characters `s` ends with.
pub open spec fn trailing_ws(s: Seq<char>) -> nat
    decreases s.len(),
{
    if s.len() > 0 && is_white_space(s.last()) {
        1 + trailing_ws(s.drop_last())
    } else {
        0
    }
}

/// `s` without its leading and its trailing whitespace.
pub open spec fn trimmed(s: Seq<char>) -> Seq<char> {
    let rest = s.skip(leading_ws(s) as int);
    rest.take(rest.len() - trailing_ws(rest))
}

proof fn lemma_leading_ws_bound(s: Seq<char>)
    ensures
        leading_ws(s) <= s.len(),
        leading_ws(s) < s.len() ==> !is_white_space(s[leading_ws(s) as int]),
        forall|k: int| 0 <= k < leading_ws(s) ==> is_white_space(#[trigger] s[k]),
    decreases s.len(),
{
    if s.len() > 0 && is_white_space(s[0]) {
        lemma_leading_ws_bound(s.drop_first());
        assert forall|k: int| 0 <= k < leading_ws(s) implies is_white_space(#[trigger] s[k]) by {
            if k > 0 {
                assert(s[k] == s.drop_first()[k - 1]);
            }
        }
    }
}

proof fn lemma_trailing_ws_bound(s: Seq<char>)
    ensures
        trailing_ws(s) <= s.len(),
        trailing_ws(s) < s.len() ==> !is_white_space(s[s.len() - 1 - trailing_ws(s)]),
        forall|k: int| s.len() - trailing_ws(s) <= k < s.len() ==> is_white_space(#[trigger] s[k]),
    decreases s.len(),
{
    if s.len() > 0 && is_white_space(s.last()) {
        lemma_trailing_ws_bound(s.drop_last());
        assert forall|k: int| s.len() - trailing_ws(s) <= k < s.len() implies is_white_space(#[trigger] s[k]) by {
            if k < s.len() - 1 {
                assert(s[k] == s.drop_last()[k]);
            }
        }
    }
}

/// Removes leading and trailing whitespace, where whitespace is what
/// `char::is_whitespace` accepts.
pub fn trim(s: &[char]) -> (r: Vec<char>)
    ensures
        r@ == trimmed(s@),
{
    let n = s.len();
    let mut start: usize = 0;
    assert(s@.skip(0) =~= s@);
    while start < n && is_whitespace(s[start])
        invariant
            start <= n,
            n == s@.len(),
            leading_ws(s@) == start + leading_ws(s@.skip(start as int)),
        decreases n - start,
    {
        assert(s@.skip(start as int).drop_first() =~= s@.skip(start + 1));
        start = start + 1;
    }
    let ghost rest = s@.skip(start as int);
    assert(leading_ws(rest) == 0);
    let mut end = n;
    assert(rest.take(n - start) =~= rest);
    while end > start && is_whitespace(s[end - 1])
        invariant
            start <= end <= n,
            n == s@.len(),
            rest == s@.skip(start as int),
            trailing_ws(rest) == (n - end) + trailing_ws(rest.take(end - start)),
        decreases end,
    {
        assert(rest.take(end - start).drop_last() =~= rest.take(end - 1 - start));
        end = end - 1;
    }
    assert(trailing_ws(rest.take(end - start)) == 0);
    let mut r: Vec<char> = Vec::new();
    let mut i = start;
    while i < end
        invariant
            start <= i <= end <= n,
            n == s@.len(),
            r@ == s@.subrange(start as int, i as int),
        decreases end - i,
    {
        r.push(s[i]);
        i = i + 1;
    }
    assert(r@ =~= trimmed(s@));
    r
}

/// The characters of `s`, in order.
pub fn chars_of(s: &str) -> (r: Vec<char>)
    ensures
        r@ == s@,
{
    let mut r: Vec<char> = Vec::new();
    for c in it: s.chars()
        invariant
            r@ == it.seq().take(it.index() as int),
    {
        r.push(c);
    }
    r
}


/// Index of the first `'\n'` in `s`, or `s.len()` when there is none.
pub open spec fn newline_index(s: Seq<char>) -> nat
    decreases s.len(),
{
    if s.len() == 0 || s[0] == '\n' {
        0
    } else {
        1 + newline_index(s.drop_first())
    }
}

/// A line without the `'\r'` of a `"\r\n"` line ending.
pub open spec fn strip_cr(line: Seq<char>) -> Seq<char> {
    if line.len() > 0 && line.last() == '\r' {
        line.drop_last()
    } else {
        line
    }
}

/// The lines of `s` as `str::lines` yields them: split at `"\n"` or
/// `"\r\n"`, line endings removed, no empty line after a final line ending.
pub open spec fn lines_of(s: Seq<char>) -> Seq<Seq<char>>
    decreases s.len(),
{
    if s.len() == 0 {
        Seq::empty()
    } else {
        let i = newline_index(s);
        if i >= s.len() {
            seq![s]
        } else {
            seq![strip_cr(s.take(i as int))] + lines_of(s.skip(i + 1 as int))
        }
    }
}

/// The trimmed lines that are left non-empty, in order.
pub open spec fn non_empty_trimmed(lines: Seq<Seq<char>>) -> Seq<Seq<char>>
    decreases lines.len(),
{
    if lines.len() == 0 {
        Seq::empty()
    } else {
        let t = trimmed(lines[0]);
        let rest = non_empty_trimmed(lines.drop_first());
        if t.len() > 0 {
            seq![t] + rest
        } else {
            rest
        }
    }
}

/// What a line reader of this library sees of a command's output: the lines,
/// trimmed, without the ones that are empty after trimming.
pub open spec fn content_lines(s: Seq<char>) -> Seq<Seq<char>> {
    non_empty_trimmed(lines_of(s))
}

pub open spec fn views_of(v: Seq<Vec<char>>) -> Seq<Seq<char>> {
    v.map_values(|l: Vec<char>| l@)
}

proof fn lemma_newline_index(s: Seq<char>)
    ensures
        newline_index(s) <= s.len(),
        newline_index(s) < s.len() ==> s[newline_index(s) as int] == '\n',
        forall|k: int| 0 <= k < newline_index(s) ==> #[trigger] s[k] != '\n',
    decreases s.len(),
{
    if s.len() > 0 && s[0] != '\n' {
        lemma_newline_index(s.drop_first());
        assert forall|k: int| 0 <= k < newline_index(s) implies #[trigger] s[k] != '\n' by {
            if k > 0 {
                assert(s[k] == s.drop_first()[k - 1]);
            }
        }
    }
}

/// The trimmed, non-empty lines of `s`.
pub fn content_lines_of(s: &[char]) -> (r: Vec<Vec<char>>)
    ensures
        views_of(r@) == content_lines(s@),
{
    let n = s.len();
    let mut out: Vec<Vec<char>> = Vec::new();
    let mut pos: usize = 0;
    assert(s@.skip(0) =~= s@);
    while pos < n
        invariant
            pos <= n,
            n == s@.len(),
            content_lines(s@) == views_of(out@) + content_lines(s@.skip(pos as int)),
        decreases n - pos,
    {
        let ghost tail = s@.skip(pos as int);
        let mut j = pos;
        assert(s@.skip(pos as int) =~= tail);
        while j < n && s[j] != '\n'
            invariant
                pos <= j <= n,
                n == s@.len(),
                tail == s@.skip(pos as int),
                newline_index(tail) == (j - pos) + newline_index(s@.skip(j as int)),
            decreases n - j,
        {
            assert(s@.skip(j as int).drop_first() =~= s@.skip(j + 1));
            j = j + 1;
        }
        proof {
            lemma_newline_index(tail);
        }
        let mut line_end = j;
        if j < n && j > pos && s[j - 1] == '\r' {
            line_end = j - 1;
        }
        let mut line: Vec<char> = Vec::new();
        let mut k = pos;
        while k < line_end
            invariant
                pos <= k <= line_end <= j <= n,
                n == s@.len(),
                line@ == s@.subrange(pos as int, k as int),
            decreases line_end - k,
        {
            line.push(s[k]);
            k = k + 1;
        }
        let t = trim(line.as_slice());
        let ghost before = views_of(out@);
        proof {
            if j < n {
                assert(tail.take(j - pos) =~= s@.subrange(pos as int, j as int));
                assert(tail.skip(j - pos + 1) =~= s@.skip(j + 1));
                assert(strip_cr(tail.take(j - pos)) =~= line@);
            } else {
                assert(tail =~= line@);
                assert(s@.skip(n as int) =~= Seq::<char>::empty());
            }
            assert(lines_of(tail).drop_first() =~= if j < n { lines_of(s@.skip(j + 1)) } else { Seq::empty() });
        }
        if t.len() > 0 {
            out.push(t);
            assert(views_of(out@) =~= before + seq![trimmed(line@)]);
        }
        if j < n {
            pos = j + 1;
        } else {
            pos = n;
        }
    }
    assert(s@.skip(n as int) =~= Seq::<char>::empty());
    assert(views_of(out@) + Seq::<Seq<char>>::empty() =~= views_of(out@));
    out
}


/// The one non-empty line of `s`, trimmed; `None` when `s` has no non-empty
/// line or more than one.
pub open spec fn single_line_of(s: Seq<char>) -> Option<Seq<char>> {
    let lines = content_lines(s);
    if lines.len() == 1 {
        Some(lines[0])
    } else {
        None
    }
}

/// The first non-empty line of `s`, trimmed; `None` when there is none.
pub open spec fn first_non_empty_line_of(s: Seq<char>) -> Option<Seq<char>> {
    let lines = content_lines(s);
    if lines.len() > 0 {
        Some(lines[0])
    } else {
        None
    }
}

/// A `String` holding the characters of `chars`.
pub fn string_of(chars: &[char]) -> (r: String)
    ensures
        r@ == chars@,
{
    let mut r = String::new();
    let mut i: usize = 0;
    while i < chars.len()
        invariant
            i <= chars.len(),
            r@ == chars@.take(i as int),
        decreases chars.len() - i,
    {
        push_char(&mut r, chars[i]);
        assert(chars@.take(i + 1) =~= chars@.take(i as int).push(chars@[i as int]));
        i = i + 1;
    }
    assert(chars@.take(chars.len() as int) =~= chars@);
    r
}

/// The output's only non-empty line, trimmed, or `None` when it has none or
/// several.
pub fn single_line(stdout: &str) -> (r: Option<String>)
    ensures
        r.deep_view() == single_line_of(stdout@),
{
    let chars = chars_of(stdout);
    let lines = content_lines_of(chars.as_slice());
    if lines.len() == 1 {
        assert(views_of(lines@)[0] == lines@[0]@);
        Some(string_of(lines[0].as_slice()))
    } else {
        None
    }
}

/// The output's first non-empty line, trimmed, or `None` when it has none.
pub fn first_non_empty_line(stdout: &str) -> (r: Option<String>)
    ensures
        r.deep_view() == first_non_empty_line_of(stdout@),
{
    let chars = chars_of(stdout);
    let lines = content_lines_of(chars.as_slice());
    if lines.len() > 0 {
        assert(views_of(lines@)[0] == lines@[0]@);
        Some(string_of(lines[0].as_slice()))
    } else {
        None
    }
}

/// A line as the readers hand it out: not empty, and no whitespace at
/// either end.
pub open spec fn is_clean_line(line: Seq<char>) -> bool {
    &&& line.len() > 0
    &&& !is_white_space(line[0])
    &&& !is_white_space(line.last())
}

proof fn lemma_trimmed_ends(s: Seq<char>)
    ensures
        trimmed(s).len() > 0 ==> is_clean_line(trimmed(s)),
{
    lemma_leading_ws_bound(s);
    let rest = s.skip(leading_ws(s) as int);
    lemma_trailing_ws_bound(rest);
    let t = trimmed(s);
    if t.len() > 0 {
        assert(t[0] == rest[0]);
        assert(rest[0] == s[leading_ws(s) as int]);
        assert(t.last() == rest[rest.len() - 1 - trailing_ws(rest)]);
    }
}

/// Trimming a trimmed text changes nothing.
pub proof fn trim_idempotent(s: Seq<char>)
    ensures
        trimmed(trimmed(s)) == trimmed(s),
{
    let t = trimmed(s);
    lemma_trimmed_ends(s);
    if t.len() > 0 {
        assert(leading_ws(t) == 0);
        assert(t.skip(0) =~= t);
        assert(trailing_ws(t) == 0);
        assert(t.take(t.len() as int) =~= t);
    } else {
        assert(leading_ws(t) == 0);
        assert(t.skip(0) =~= t);
        assert(trailing_ws(t) == 0);
        assert(trimmed(t) =~= t);
    }
}

proof fn lemma_non_empty_trimmed_clean(lines: Seq<Seq<char>>)
    ensures
        forall|i: int|
            0 <= i < non_empty_trimmed(lines).len() ==> is_clean_line(
                #[trigger] non_empty_trimmed(lines)[i],
            ),
    decreases lines.len(),
{
    if lines.len() > 0 {
        lemma_non_empty_trimmed_clean(lines.drop_first());
        lemma_trimmed_ends(lines[0]);
        let t = trimmed(lines[0]);
        let rest = non_empty_trimmed(lines.drop_first());
        if t.len() > 0 {
            assert forall|i: int| 0 <= i < non_empty_trimmed(lines).len() implies is_clean_line(
                #[trigger] non_empty_trimmed(lines)[i],
            ) by {
                if i > 0 {
                    assert(non_empty_trimmed(lines)[i] == rest[i - 1]);
                }
            }
        }
    }
}

/// Every line the readers see of a text is non-empty and has no whitespace
/// at either end.
pub proof fn content_lines_are_clean(s: Seq<char>)
    ensures
        forall|i: int|
            0 <= i < content_lines(s).len() ==> is_clean_line(#[trigger] content_lines(s)[i]),
{
    lemma_non_empty_trimmed_clean(lines_of(s));
}

/// When a text has exactly one non-empty line, both readers return that line,
/// and it is non-empty with no whitespace at either end.
pub proof fn single_line_agrees_with_first(s: Seq<char>)
    ensures
        single_line_of(s) matches Some(line) ==> first_non_empty_line_of(s) == Some(line)
            && is_clean_line(line),
        first_non_empty_line_of(s) matches Some(line) ==> is_clean_line(line),
{
    content_lines_are_clean(s);
    if content_lines(s).len() > 0 {
        assert(is_clean_line(content_lines(s)[0]));
    }
}

/// `line` is a run of consecutive characters of `text`.
pub open spec fn is_slice_of(line: Seq<char>, text: Seq<char>) -> bool {
    exists|a: int, b: int| 0 <= a <= b <= text.len() && line == text.subrange(a, b)
}

/// `line` holds no line feed.
pub open spec fn has_no_newline(line: Seq<char>) -> bool {
    forall|k: int| 0 <= k < line.len() ==> line[k] != '\n'
}

/// A line of `text` as the readers hand it out: a run of consecutive
/// characters of `text` with no line feed in it.
pub open spec fn is_line_of(line: Seq<char>, text: Seq<char>) -> bool {
    is_slice_of(line, text) && has_no_newline(line)
}

proof fn lemma_slice_of_slice(x: Seq<char>, y: Seq<char>, z: Seq<char>)
    requires
        is_slice_of(x, y),
        is_line_of(y, z),
    ensures
        is_line_of(x, z),
{
    let (a, b) = choose|a: int, b: int| 0 <= a <= b <= y.len() && x == y.subrange(a, b);
    let (c, d) = choose|c: int, d: int| 0 <= c <= d <= z.len() && y == z.subrange(c, d);
    assert(x =~= z.subrange(c + a, c + b));
    assert forall|k: int| 0 <= k < x.len() implies x[k] != '\n' by {
        assert(x[k] == y[a + k]);
    }
}

proof fn lemma_trimmed_is_slice(line: Seq<char>)
    ensures
        is_slice_of(trimmed(line), line),
{
    lemma_leading_ws_bound(line);
    let a = leading_ws(line) as int;
    let rest = line.skip(a);
    lemma_trailing_ws_bound(rest);
    let b = a + rest.len() - trailing_ws(rest);
    assert(trimmed(line) =~= line.subrange(a, b));
}

proof fn lemma_lines_of_are_lines(s: Seq<char>)
    ensures
        forall|i: int| 0 <= i < lines_of(s).len() ==> is_line_of(#[trigger] lines_of(s)[i], s),
    decreases s.len(),
{
    if s.len() > 0 {
        let i = newline_index(s) as int;
        lemma_newline_index(s);
        if i >= s.len() {
            assert(s =~= s.subrange(0, s.len() as int));
            assert(is_line_of(lines_of(s)[0], s));
        } else {
            let first = strip_cr(s.take(i));
            assert(first =~= s.subrange(0, first.len() as int));
            assert(is_line_of(first, s));
            let rest = s.skip(i + 1);
            lemma_lines_of_are_lines(rest);
            assert forall|j: int| 0 <= j < lines_of(s).len() implies is_line_of(
                #[trigger] lines_of(s)[j],
                s,
            ) by {
                if j > 0 {
                    let l = lines_of(rest)[j - 1];
                    assert(lines_of(s)[j] == l);
                    assert(is_line_of(l, rest));
                    let (a, b) = choose|a: int, b: int|
                        0 <= a <= b <= rest.len() && l == rest.subrange(a, b);
                    assert(l =~= s.subrange(a + i + 1, b + i + 1));
                }
            }
        }
    }
}

proof fn lemma_non_empty_trimmed_lines(lines: Seq<Seq<char>>, s: Seq<char>)
    requires
        forall|i: int| 0 <= i < lines.len() ==> is_line_of(#[trigger] lines[i], s),
    ensures
        forall|i: int|
            0 <= i < non_empty_trimmed(lines).len() ==> is_line_of(
                #[trigger] non_empty_trimmed(lines)[i],
                s,
            ),
    decreases lines.len(),
{
    if lines.len() > 0 {
        assert forall|i: int| 0 <= i < lines.drop_first().len() implies is_line_of(
            #[trigger] lines.drop_first()[i],
            s,
        ) by {
            assert(lines.drop_first()[i] == lines[i + 1]);
        }
        lemma_non_empty_trimmed_lines(lines.drop_first(), s);
        let t = trimmed(lines[0]);
        lemma_trimmed_is_slice(lines[0]);
        assert(is_line_of(lines[0], s));
        lemma_slice_of_slice(t, lines[0], s);
        let rest = non_empty_trimmed(lines.drop_first());
        if t.len() > 0 {
            assert forall|i: int| 0 <= i < non_empty_trimmed(lines).len() implies is_line_of(
                #[trigger] non_empty_trimmed(lines)[i],
                s,
            ) by {
                if i > 0 {
                    assert(non_empty_trimmed(lines)[i] == rest[i - 1]);
                }
            }
        }
    }
}

/// Every line the readers see of a text is a run of consecutive characters
/// of the text, with no line feed in it; so is what `single_line` and
/// `first_non_empty_line` return.
pub proof fn read_lines_come_from_the_text(s: Seq<char>)
    ensures
        forall|i: int| 0 <= i < content_lines(s).len() ==> is_line_of(#[trigger] content_lines(s)[i], s),
        single_line_of(s) matches Some(line) ==> is_line_of(line, s),
        first_non_empty_line_of(s) matches Some(line) ==> is_line_of(line, s),
{
    lemma_lines_of_are_lines(s);
    lemma_non_empty_trimmed_lines(lines_of(s), s);
    if content_lines(s).len() > 0 {
        assert(is_line_of(content_lines(s)[0], s));
    }
}

proof fn lemma_trimmed_keeps_visible(line: Seq<char>, i: int)
    requires
        0 <= i < line.len(),
        !is_white_space(line[i]),
    ensures
        trimmed(line).len() > 0,
{
    lemma_leading_ws_bound(line);
    let a = leading_ws(line) as int;
    assert(a <= i) by {
        if a > i {
            assert(is_white_space(line[i]));
        }
    }
    let rest = line.skip(a);
    lemma_trailing_ws_bound(rest);
    assert(rest[i - a] == line[i]);
    assert(i - a < rest.len() - trailing_ws(rest)) by {
        if i - a >= rest.len() - trailing_ws(rest) {
            assert(is_white_space(rest[i - a]));
        }
    }
}

proof fn lemma_clean_line_is_trimmed(line: Seq<char>)
    requires
        is_clean_line(line),
    ensures
        trimmed(line) == line,
{
    assert(leading_ws(line) == 0);
    assert(line.skip(0) =~= line);
    assert(trailing_ws(line) == 0);
    assert(line.take(line.len() as int) =~= line);
}

proof fn lemma_non_empty_trimmed_nonempty(lines: Seq<Seq<char>>, k: int)
    requires
        0 <= k < lines.len(),
        trimmed(lines[k]).len() > 0,
    ensures
        non_empty_trimmed(lines).len() > 0,
    decreases lines.len(),
{
    if k > 0 && trimmed(lines[0]).len() == 0 {
        assert(lines.drop_first()[k - 1] == lines[k]);
        lemma_non_empty_trimmed_nonempty(lines.drop_first(), k - 1);
    }
}

proof fn lemma_visible_char_in_a_line(s: Seq<char>, i: int)
    requires
        0 <= i < s.len(),
        !is_white_space(s[i]),
    ensures
        exists|k: int| 0 <= k < lines_of(s).len() && trimmed(#[trigger] lines_of(s)[k]).len() > 0,
    decreases s.len(),
{
    let ni = newline_index(s) as int;
    lemma_newline_index(s);
    if ni >= s.len() {
        lemma_trimmed_keeps_visible(s, i);
        assert(lines_of(s)[0] == s);
    } else if i < ni {
        let first = strip_cr(s.take(ni));
        assert(i < first.len()) by {
            if i == ni - 1 && s.take(ni).last() == '\r' {
                assert(is_white_space(s[i]));
            }
        }
        assert(first[i] == s[i]);
        lemma_trimmed_keeps_visible(first, i);
        assert(lines_of(s)[0] == first);
    } else {
        assert(i != ni);
        let rest = s.skip(ni + 1);
        assert(rest[i - ni - 1] == s[i]);
        lemma_visible_char_in_a_line(rest, i - ni - 1);
        let k = choose|k: int| 0 <= k < lines_of(rest).len() && trimmed(#[trigger] lines_of(rest)[k]).len() > 0;
        assert(lines_of(s)[k + 1] == lines_of(rest)[k]);
    }
}

/// A text with any character that is not whitespace has a first non-empty
/// line, whatever its length: a line of the text, non-empty, with no
/// whitespace at either end.
pub proof fn visible_text_has_a_first_line(s: Seq<char>, i: int)
    requires
        0 <= i < s.len(),
        !is_white_space(s[i]),
    ensures
        first_non_empty_line_of(s) matches Some(line) && is_clean_line(line) && is_line_of(line, s),
{
    lemma_visible_char_in_a_line(s, i);
    let k = choose|k: int| 0 <= k < lines_of(s).len() && trimmed(#[trigger] lines_of(s)[k]).len() > 0;
    lemma_non_empty_trimmed_nonempty(lines_of(s), k);
    single_line_agrees_with_first(s);
    read_lines_come_from_the_text(s);
}

proof fn lemma_newline_index_after_line(line: Seq<char>, rest: Seq<char>)
    requires
        has_no_newline(line),
    ensures
        newline_index(line + rest) == line.len() + newline_index(rest),
    decreases line.len(),
{
    if line.len() > 0 {
        assert((line + rest).drop_first() =~= line.drop_first() + rest);
        assert(has_no_newline(line.drop_first())) by {
            assert forall|k: int| 0 <= k < line.drop_first().len() implies line.drop_first()[k]
                != '\n' by {
                assert(line.drop_first()[k] == line[k + 1]);
            }
        }
        lemma_newline_index_after_line(line.drop_first(), rest);
    } else {
        assert(line + rest =~= rest);
    }
}

/// A text that starts with a line, then a line feed, is read first as that
/// line (trimmed), whatever follows and whatever the line's length; a text
/// that is one line and a line feed is read by both readers as that line.
pub proof fn first_line_is_read_first(line: Seq<char>, rest: Seq<char>)
    requires
        is_clean_line(line),
        has_no_newline(line),
    ensures
        first_non_empty_line_of(line + seq!['\n'] + rest) == Some(line),
        single_line_of(line + seq!['\n']) == Some(line),
        first_non_empty_line_of(line + seq!['\n']) == Some(line),
{
    let t = line + seq!['\n'] + rest;
    assert(t =~= line + (seq!['\n'] + rest));
    lemma_newline_index_after_line(line, seq!['\n'] + rest);
    assert(newline_index(seq!['\n'] + rest) == 0);
    assert(t.take(line.len() as int) =~= line);
    assert(line.last() != '\r');
    assert(strip_cr(line) == line);
    lemma_clean_line_is_trimmed(line);
    assert(lines_of(t)[0] == line);
    assert(lines_of(t).drop_first() =~= lines_of(t.skip(line.len() + 1int)));
    assert(content_lines(t)[0] == line);
    let u = line + seq!['\n'];
    assert(u =~= line + (seq!['\n'] + Seq::<char>::empty()));
    lemma_newline_index_after_line(line, seq!['\n'] + Seq::<char>::empty());
    assert(newline_index(seq!['\n'] + Seq::<char>::empty()) == 0);
    assert(u.take(line.len() as int) =~= line);
    assert(u.skip(line.len() + 1int) =~= Seq::<char>::empty());
    assert(newline_index(u) == line.len());
    assert(lines_of(Seq::<char>::empty()) == Seq::<Seq<char>>::empty());
    assert(lines_of(u) =~= seq![strip_cr(u.take(line.len() as int))] + lines_of(
        u.skip(line.len() + 1int),
    ));
    assert(lines_of(u) =~= seq![line]);
    assert(non_empty_trimmed(seq![line]) =~= seq![line]) by {
        assert(seq![line][0] == line);
        assert(seq![line].drop_first() =~= Seq::<Seq<char>>::empty());
        assert(non_empty_trimmed(Seq::<Seq<char>>::empty()) == Seq::<Seq<char>>::empty());
    }
}

} // verus!

//! Character-level text rules shared by the whole library: Unicode white
//! space, ASCII punctuation, trimming, line splitting, white-space
//! collapsing, truncation, substring search and decimal rendering.

use vstd::prelude::*;
use crate::foreign::push_char;

verus! {

/// The Unicode `White_Space` property, the set that `char::is_whitespace`
/// and `str::trim` use.
pub open spec fn is_white_space(c: char) -> bool {
    let u = c as u32;
    ||| (0x9 <= u && u <= 0xd)
    ||| u == 0x20
    ||| u == 0x85
    ||| u == 0xa0
    ||| u == 0x1680
    ||| (0x2000 <= u && u <= 0x200a)
    ||| u == 0x2028
    ||| u == 0x2029
    ||| u == 0x202f
    ||| u == 0x205f
    ||| u == 0x3000
}

/// ASCII punctuation as `char::is_ascii_punctuation` defines it.
pub open spec fn is_ascii_punct(c: char) -> bool {
    let u = c as u32;
    ||| (33 <= u && u <= 47)
    ||| (58 <= u && u <= 64)
    ||| (91 <= u && u <= 96)
    ||| (123 <= u && u <= 126)
}

/// `c` with an ASCII upper-case letter mapped to lower case.
pub open spec fn ascii_lower(c: char) -> char {
    if 'A' <= c && c <= 'Z' {
        ((c as u32) + 32) as char
    } else {
        c
    }
}

/// A text that holds only white space (`str::trim` leaves nothing of it).
pub open spec fn is_blank(s: Seq<char>) -> bool {
    forall|i: int| 0 <= i < s.len() ==> is_white_space(#[trigger] s[i])
}

/// `s` without its leading white space.
pub open spec fn trim_start(s: Seq<char>) -> Seq<char>
    decreases s.len(),
{
    if s.len() > 0 && is_white_space(s[0]) {
        trim_start(s.drop_first())
    } else {
        s
    }
}

/// `s` without its trailing white space.
pub open spec fn trim_end(s: Seq<char>) -> Seq<char>
    decreases s.len(),
{
    if s.len() > 0 && is_white_space(s.last()) {
        trim_end(s.drop_last())
    } else {
        s
    }
}

/// What `str::trim` returns.
pub open spec fn trim(s: Seq<char>) -> Seq<char> {
    trim_end(trim_start(s))
}

/// The first `n` characters of `s`, or all of them when there are fewer.
pub open spec fn take_chars(s: Seq<char>, n: int) -> Seq<char> {
    if s.len() <= n {
        s
    } else {
        s.take(n)
    }
}

/// `t` occurs in `s` as a contiguous piece.
pub open spec fn has_piece(s: Seq<char>, t: Seq<char>) -> bool {
    exists|i: int| 0 <= i <= s.len() - t.len() && #[trigger] s.subrange(i, i + t.len()) == t
}

/// `s` ends with `t`.
pub open spec fn ends_with(s: Seq<char>, t: Seq<char>) -> bool {
    t.len() <= s.len() && s.subrange(s.len() - t.len(), s.len() as int) == t
}

/// Position of the first line feed in `s`, or `s.len()` when there is none.
pub open spec fn first_newline(s: Seq<char>) -> int
    decreases s.len(),
{
    if s.len() == 0 {
        0
    } else if s[0] == '\n' {
        0
    } else {
        1 + first_newline(s.drop_first())
    }
}

pub proof fn lemma_first_newline_bounds(s: Seq<char>)
    ensures
        0 <= first_newline(s) <= s.len(),
        first_newline(s) < s.len() ==> s[first_newline(s)] == '\n',
        forall|k: int| 0 <= k < first_newline(s) ==> s[k] != '\n',
    decreases s.len(),
{
    if s.len() > 0 && s[0] != '\n' {
        lemma_first_newline_bounds(s.drop_first());
        assert forall|k: int| 0 <= k < first_newline(s) implies s[k] != '\n' by {
            if k > 0 {
                assert(s[k] == s.drop_first()[k - 1]);
            }
        }
    }
}

proof fn lemma_first_newline_is(s: Seq<char>, m: int)
    requires
        0 <= m <= s.len(),
        m < s.len() ==> s[m] == '\n',
        forall|k: int| 0 <= k < m ==> s[k] != '\n',
    ensures
        first_newline(s) == m,
    decreases s.len(),
{
    if s.len() > 0 && m > 0 {
        lemma_first_newline_is(s.drop_first(), m - 1);
    }
}

/// A line without the carriage return that ends it, if any.
pub open spec fn strip_cr(s: Seq<char>) -> Seq<char> {
    if s.len() > 0 && s.last() == '\r' {
        s.drop_last()
    } else {
        s
    }
}

/// What `str::lines` yields: pieces split at `\n`, a `\r` before the `\n`
/// removed, and no empty last piece after a final line feed.
pub open spec fn lines(s: Seq<char>) -> Seq<Seq<char>>
    decreases s.len(),
{
    if s.len() == 0 {
        seq![]
    } else {
        let k = first_newline(s);
        proof {
            lemma_first_newline_bounds(s);
        }
        if k < s.len() {
            seq![strip_cr(s.take(k))] + lines(s.skip(k + 1))
        } else {
            seq![s]
        }
    }
}

/// What `split_whitespace` followed by `join(" ")` produces, computed
/// from left to right: the text so far and whether a gap is pending.
pub open spec fn collapse_state(s: Seq<char>) -> (Seq<char>, bool)
    decreases s.len(),
{
    if s.len() == 0 {
        (seq![], false)
    } else {
        let prev = collapse_state(s.drop_last());
        let c = s.last();
        if is_white_space(c) {
            (prev.0, prev.0.len() > 0)
        } else if prev.1 {
            (prev.0.push(' ').push(c), false)
        } else {
            (prev.0.push(c), false)
        }
    }
}

/// The words of `s` joined by single spaces.
pub open spec fn collapse_white_space(s: Seq<char>) -> Seq<char> {
    collapse_state(s).0
}

/// Words joined by single spaces, cut to `max` characters with an ellipsis
/// when longer.
pub open spec fn compact_text(s: Seq<char>, max: int) -> Seq<char> {
    let c = collapse_white_space(s);
    if c.len() > max {
        c.take(max).push('…')
    } else {
        c
    }
}

/// The decimal digit for `d` (which is below ten).
pub open spec fn digit_char(d: nat) -> char {
    if d == 0 {
        '0'
    } else if d == 1 {
        '1'
    } else if d == 2 {
        '2'
    } else if d == 3 {
        '3'
    } else if d == 4 {
        '4'
    } else if d == 5 {
        '5'
    } else if d == 6 {
        '6'
    } else if d == 7 {
        '7'
    } else if d == 8 {
        '8'
    } else {
        '9'
    }
}

/// Decimal rendering of `n`, as `Display` writes an unsigned integer.
pub open spec fn decimal(n: nat) -> Seq<char>
    decreases n,
{
    if n < 10 {
        seq![digit_char(n)]
    } else {
        decimal(n / 10).push(digit_char(n % 10))
    }
}

pub fn white_space(c: char) -> (r: bool)
    ensures
        r == is_white_space(c),
{
    let u = c as u32;
    (0x9 <= u && u <= 0xd) || u == 0x20 || u == 0x85 || u == 0xa0 || u == 0x1680 || (0x2000
        <= u && u <= 0x200a) || u == 0x2028 || u == 0x2029 || u == 0x202f || u == 0x205f || u
        == 0x3000
}

pub fn ascii_punct(c: char) -> (r: bool)
    ensures
        r == is_ascii_punct(c),
{
    let u = c as u32;
    (33 <= u && u <= 47) || (58 <= u && u <= 64) || (91 <= u && u <= 96) || (123 <= u && u
        <= 126)
}

/// Copies a string slice into a vector of its characters.
pub fn chars_of(s: &str) -> (r: Vec<char>)
    ensures
        r@ == s@,
{
    let mut r: Vec<char> = Vec::new();
    for c in it: s.chars()
        invariant
            r@ == it.seq().take(it.index() as int),
    {
        r.push(c);
    }
    r
}

/// Builds a string from the characters `v[lo..hi]`.
pub fn string_of(v: &Vec<char>, lo: usize, hi: usize) -> (r: String)
    requires
        lo <= hi <= v.len(),
    ensures
        r@ == v@.subrange(lo as int, hi as int),
{
    let mut r = String::new();
    let mut i = lo;
    while i < hi
        invariant
            lo <= i <= hi <= v.len(),
            r@ == v@.subrange(lo as int, i as int),
        decreases hi - i,
    {
        push_char(&mut r, v[i]);
        i = i + 1;
        assert(r@ =~= v@.subrange(lo as int, i as int));
    }
    r
}

/// Whether `v[lo..hi]` holds only white space.
pub fn blank_range(v: &Vec<char>, lo: usize, hi: usize) -> (r: bool)
    requires
        lo <= hi <= v.len(),
    ensures
        r == is_blank(v@.subrange(lo as int, hi as int)),
{
    let mut i = lo;
    while i < hi
        invariant
            lo <= i <= hi <= v.len(),
            forall|k: int| lo <= k < i ==> is_white_space(#[trigger] v@[k]),
        decreases hi - i,
    {
        if !white_space(v[i]) {
            assert(!is_white_space(v@.subrange(lo as int, hi as int)[i - lo]));
            return false;
        }
        i = i + 1;
    }
    assert forall|k: int| 0 <= k < hi - lo implies is_white_space(
        #[trigger] v@.subrange(lo as int, hi as int)[k],
    ) by {
        assert(v@.subrange(lo as int, hi as int)[k] == v@[lo + k]);
    }
    true
}

/// Whether a string holds only white space.
pub fn str_is_blank(s: &str) -> (r: bool)
    ensures
        r == is_blank(s@),
{
    let v = chars_of(s);
    let r = blank_range(&v, 0, v.len());
    assert(v@.subrange(0, v@.len() as int) =~= v@);
    r
}

proof fn lemma_trim_start_step(v: Seq<char>, a: int, hi: int)
    requires
        0 <= a < hi <= v.len(),
        is_white_space(v[a]),
    ensures
        trim_start(v.subrange(a, hi)) == trim_start(v.subrange(a + 1, hi)),
{
    assert(v.subrange(a, hi).drop_first() =~= v.subrange(a + 1, hi));
}

proof fn lemma_trim_end_step(v: Seq<char>, a: int, b: int)
    requires
        0 <= a < b <= v.len(),
        is_white_space(v[b - 1]),
    ensures
        trim_end(v.subrange(a, b)) == trim_end(v.subrange(a, b - 1)),
{
    assert(v.subrange(a, b).drop_last() =~= v.subrange(a, b - 1));
}

proof fn lemma_trim_end_of_trim_start(s: Seq<char>)
    ensures
        trim_start(s).len() <= s.len(),
        trim_start(s) == s.subrange(s.len() - trim_start(s).len(), s.len() as int),
    decreases s.len(),
{
    if s.len() > 0 && is_white_space(s[0]) {
        lemma_trim_end_of_trim_start(s.drop_first());
        let t = trim_start(s);
        assert(s.drop_first().subrange(s.len() - 1 - t.len(), s.len() - 1) =~= s.subrange(
            s.len() - t.len(),
            s.len() as int,
        ));
    } else {
        assert(s.subrange(0, s.len() as int) =~= s);
    }
}

/// Bounds of `trim(v[lo..hi])` inside `v`.
pub fn trim_range(v: &Vec<char>, lo: usize, hi: usize) -> (r: (usize, usize))
    requires
        lo <= hi <= v.len(),
    ensures
        lo <= r.0 <= r.1 <= hi,
        trim(v@.subrange(lo as int, hi as int)) == v@.subrange(r.0 as int, r.1 as int),
{
    let mut a = lo;
    while a < hi && white_space(v[a])
        invariant
            lo <= a <= hi <= v.len(),
            trim_start(v@.subrange(lo as int, hi as int)) == trim_start(
                v@.subrange(a as int, hi as int),
            ),
        decreases hi - a,
    {
        proof {
            lemma_trim_start_step(v@, a as int, hi as int);
        }
        a = a + 1;
    }
    assert(trim_start(v@.subrange(a as int, hi as int)) == v@.subrange(a as int, hi as int));
    let mut b = hi;
    while b > a && white_space(v[b - 1])
        invariant
            lo <= a <= b <= hi <= v.len(),
            trim_end(v@.subrange(a as int, hi as int)) == trim_end(
                v@.subrange(a as int, b as int),
            ),
        decreases b - a,
    {
        proof {
            lemma_trim_end_step(v@, a as int, b as int);
        }
        b = b - 1;
    }
    (a, b)
}

/// What `str::trim` returns, as an owned string.
pub fn trimmed(s: &str) -> (r: String)
    ensures
        r@ == trim(s@),
{
    let v = chars_of(s);
    let (a, b) = trim_range(&v, 0, v.len());
    assert(v@.subrange(0, v@.len() as int) =~= v@);
    string_of(&v, a, b)
}

/// The first `n` characters of `s`, as `chars().take(n).collect()`.
pub fn take_prefix(s: &str, n: usize) -> (r: String)
    ensures
        r@ == take_chars(s@, n as int),
{
    let v = chars_of(s);
    if v.len() <= n {
        assert(v@.subrange(0, v@.len() as int) =~= v@);
        string_of(&v, 0, v.len())
    } else {
        string_of(&v, 0, n)
    }
}

/// Whether `t` occurs in `s`, as `str::contains` with a string pattern.
pub fn contains_piece(s: &Vec<char>, t: &Vec<char>) -> (r: bool)
    ensures
        r == has_piece(s@, t@),
{
    if t.len() > s.len() {
        return false;
    }
    let last = s.len() - t.len();
    let mut i: usize = 0;
    while i <= last
        invariant
            last == s.len() - t.len(),
            t.len() <= s.len(),
            i <= last + 1,
            forall|k: int| 0 <= k < i ==> #[trigger] s@.subrange(k, k + t.len()) != t@,
        decreases last + 1 - i,
    {
        let mut j: usize = 0;
        let mut same = true;
        while j < t.len()
            invariant
                i <= last,
                last == s.len() - t.len(),
                j <= t.len(),
                same == (forall|m: int| 0 <= m < j ==> s@[i + m] == t@[m]),
            decreases t.len() - j,
        {
            if s[i + j] != t[j] {
                same = false;
            }
            j = j + 1;
        }
        if same {
            assert(s@.subrange(i as int, i + t.len()) =~= t@);
            return true;
        }
        assert(s@.subrange(i as int, i + t.len()) != t@) by {
            let m = choose|m: int| 0 <= m < t.len() && s@[i + m] != t@[m];
            assert(s@.subrange(i as int, i + t.len())[m] == s@[i + m]);
        }
        i = i + 1;
    }
    proof {
        assert forall|k: int| 0 <= k <= s@.len() - t@.len() implies #[trigger] s@.subrange(
            k,
            k + t@.len(),
        ) != t@ by {}
    }
    false
}

/// Whether `s` ends with `t`, as `str::ends_with`.
pub fn ends_with_piece(s: &Vec<char>, t: &Vec<char>) -> (r: bool)
    ensures
        r == ends_with(s@, t@),
{
    if t.len() > s.len() {
        return false;
    }
    let off = s.len() - t.len();
    let mut j: usize = 0;
    while j < t.len()
        invariant
            off == s.len() - t.len(),
            j <= t.len(),
            forall|m: int| 0 <= m < j ==> s@[off + m] == t@[m],
        decreases t.len() - j,
    {
        if s[off + j] != t[j] {
            assert(s@.subrange(off as int, s.len() as int)[j as int] != t@[j as int]);
            return false;
        }
        j = j + 1;
    }
    assert(s@.subrange(off as int, s.len() as int) =~= t@);
    true
}


fn digit(d: usize) -> (c: char)
    requires
        d < 10,
    ensures
        c == digit_char(d as nat),
{
    if d == 0 {
        '0'
    } else if d == 1 {
        '1'
    } else if d == 2 {
        '2'
    } else if d == 3 {
        '3'
    } else if d == 4 {
        '4'
    } else if d == 5 {
        '5'
    } else if d == 6 {
        '6'
    } else if d == 7 {
        '7'
    } else if d == 8 {
        '8'
    } else {
        '9'
    }
}

/// Decimal rendering of `n`, as `n.to_string()`.
pub fn decimal_string(n: usize) -> (r: String)
    ensures
        r@ == decimal(n as nat),
    decreases n,
{
    if n < 10 {
        let mut s = String::new();
        push_char(&mut s, digit(n));
        assert(s@ =~= decimal(n as nat));
        s
    } else {
        let mut s = decimal_string(n / 10);
        push_char(&mut s, digit(n % 10));
        s
    }
}

/// `c` lowered as `char::to_ascii_lowercase` does.
pub fn lower_char(c: char) -> (r: char)
    ensures
        r == ascii_lower(c),
{
    if 'A' <= c && c <= 'Z' {
        let b = (c as u32) as u8;
        ((b + 32) as char)
    } else {
        c
    }
}

/// A string lowered as `str::to_ascii_lowercase` does.
pub fn lower_ascii(s: &str) -> (r: String)
    ensures
        r@ == s@.map_values(|c: char| ascii_lower(c)),
{
    let v = chars_of(s);
    let mut r = String::new();
    let mut i: usize = 0;
    while i < v.len()
        invariant
            i <= v.len(),
            v@ == s@,
            r@ == v@.take(i as int).map_values(|c: char| ascii_lower(c)),
        decreases v.len() - i,
    {
        push_char(&mut r, lower_char(v[i]));
        i = i + 1;
        assert(r@ =~= v@.take(i as int).map_values(|c: char| ascii_lower(c)));
    }
    assert(v@.take(v.len() as int) =~= v@);
    r
}

proof fn lemma_lines_split(s: Seq<char>, q: int)
    requires
        0 <= q < s.len(),
        s[q] == '\n',
        forall|k: int| 0 <= k < q ==> s[k] != '\n',
    ensures
        lines(s) == seq![strip_cr(s.take(q))] + lines(s.skip(q + 1)),
{
    lemma_first_newline_is(s, q);
}

proof fn lemma_lines_last(s: Seq<char>)
    requires
        s.len() > 0,
        forall|k: int| 0 <= k < s.len() ==> s[k] != '\n',
    ensures
        lines(s) == seq![s],
{
    lemma_first_newline_is(s, s.len() as int);
}

/// The character ranges of the lines of `v`, as `str::lines` yields them.
pub fn line_ranges(v: &Vec<char>) -> (r: Vec<(usize, usize)>)
    ensures
        r.len() == lines(v@).len(),
        forall|k: int|
            0 <= k < r.len() ==> {
                &&& (#[trigger] r@[k]).0 <= r@[k].1 <= v.len()
                &&& v@.subrange(r@[k].0 as int, r@[k].1 as int) == lines(v@)[k]
            },
{
    let mut r: Vec<(usize, usize)> = Vec::new();
    let mut p: usize = 0;
    let n = v.len();
    assert(v@.subrange(0, n as int) =~= v@);
    while p < n
        invariant
            n == v.len(),
            p <= n,
            lines(v@).len() == r.len() + lines(v@.subrange(p as int, n as int)).len(),
            forall|k: int|
                0 <= k < r.len() ==> {
                    &&& (#[trigger] r@[k]).0 <= r@[k].1 <= v.len()
                    &&& v@.subrange(r@[k].0 as int, r@[k].1 as int) == lines(v@)[k]
                },
            forall|k: int|
                0 <= k < lines(v@.subrange(p as int, n as int)).len() ==> lines(v@)[r.len() + k]
                    == #[trigger] lines(v@.subrange(p as int, n as int))[k],
        decreases n - p,
    {
        let ghost rest = v@.subrange(p as int, n as int);
        let mut q = p;
        while q < n && v[q] != '\n'
            invariant
                p <= q <= n,
                n == v.len(),
                forall|k: int| p <= k < q ==> v@[k] != '\n',
            decreases n - q,
        {
            q = q + 1;
        }
        let mut e = q;
        if q > p && v[q - 1] == '\r' && q < n {
            e = q - 1;
        }
        let ghost before = r@;
        r.push((p, e));
        if q < n {
            proof {
                assert forall|k: int| 0 <= k < q - p implies rest[k] != '\n' by {
                    assert(rest[k] == v@[p + k]);
                }
                lemma_lines_split(rest, q - p);
                assert(rest.skip(q - p + 1) =~= v@.subrange(q + 1, n as int));
                assert(strip_cr(rest.take(q - p)) =~= v@.subrange(p as int, e as int));
                assert(lines(rest)[0] == v@.subrange(p as int, e as int));
                assert(lines(v@)[before.len() as int] == lines(rest)[0]);
                assert forall|k: int|
                    0 <= k < lines(v@.subrange(q + 1, n as int)).len() implies lines(v@)[r.len()
                    + k] == #[trigger] lines(v@.subrange(q + 1, n as int))[k] by {
                    assert(lines(rest)[k + 1] == lines(v@.subrange(q + 1, n as int))[k]);
                }
            }
            p = q + 1;
        } else {
            proof {
                assert forall|k: int| 0 <= k < rest.len() implies rest[k] != '\n' by {
                    assert(rest[k] == v@[p + k]);
                }
                lemma_lines_last(rest);
                assert(lines(rest)[0] == v@.subrange(p as int, e as int));
                assert(lines(v@)[before.len() as int] == lines(rest)[0]);
                assert(v@.subrange(n as int, n as int) =~= Seq::<char>::empty());
            }
            p = n;
        }
    }
    r
}

/// Words of `v` joined by single spaces (`split_whitespace().join(" ")`).
pub fn collapse_chars(v: &Vec<char>) -> (r: Vec<char>)
    ensures
        r@ == collapse_white_space(v@),
{
    let mut out: Vec<char> = Vec::new();
    let mut gap = false;
    let mut i: usize = 0;
    while i < v.len()
        invariant
            i <= v.len(),
            (out@, gap) == collapse_state(v@.take(i as int)),
        decreases v.len() - i,
    {
        let c = v[i];
        proof {
            assert(v@.take(i + 1).drop_last() =~= v@.take(i as int));
        }
        if white_space(c) {
            gap = out.len() > 0;
        } else {
            if gap {
                out.push(' ');
            }
            out.push(c);
            gap = false;
        }
        i = i + 1;
    }
    assert(v@.take(v.len() as int) =~= v@);
    out
}

/// Words joined by single spaces and cut to `max_chars` characters, with
/// `…` appended when cut.
pub fn compact(text: &str, max_chars: usize) -> (r: String)
    ensures
        r@ == compact_text(text@, max_chars as int),
{
    let v = chars_of(text);
    let c = collapse_chars(&v);
    if c.len() > max_chars {
        let mut s = string_of(&c, 0, max_chars);
        push_char(&mut s, '…');
        assert(c@.subrange(0, max_chars as int) =~= c@.take(max_chars as int));
        s
    } else {
        assert(c@.subrange(0, c@.len() as int) =~= c@);
        string_of(&c, 0, c.len())
    }
}

/// A compacted text never exceeds its limit by more than the ellipsis, and
/// it is cut only when the words do not fit.
pub proof fn compact_is_bounded(s: Seq<char>, max: nat)
    ensures
        compact_text(s, max as int).len() <= max + 1,
        collapse_white_space(s).len() <= max ==> compact_text(s, max as int) == collapse_white_space(s),
        collapse_white_space(s).len() > max ==> compact_text(s, max as int).last() == '…',
{
}

/// No line that `lines` yields holds a line feed.
pub proof fn lines_hold_no_line_feed(s: Seq<char>)
    ensures
        forall|k: int, i: int|
            0 <= k < lines(s).len() && 0 <= i < lines(s)[k].len() ==> #[trigger] lines(s)[k][i] != '\n',
    decreases s.len(),
{
    if s.len() > 0 {
        lemma_first_newline_bounds(s);
        let q = first_newline(s);
        if q < s.len() {
            lines_hold_no_line_feed(s.skip(q + 1));
            let first = strip_cr(s.take(q));
            assert forall|k: int, i: int|
                0 <= k < lines(s).len() && 0 <= i < lines(s)[k].len() implies #[trigger] lines(s)[k][i] != '\n' by {
                if k == 0 {
                    assert(lines(s)[0] == first);
                    assert(first[i] == s[i]);
                } else {
                    assert(lines(s)[k] == lines(s.skip(q + 1))[k - 1]);
                }
            }
        } else {
            assert forall|k: int, i: int|
                0 <= k < lines(s).len() && 0 <= i < lines(s)[k].len() implies #[trigger] lines(s)[k][i] != '\n' by {
                assert(lines(s)[0] == s);
            }
        }
    }
}

} // verus!

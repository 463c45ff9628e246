//! Character-level string operations with their specifications.
//!
//! Strings are handled as sequences of `char`s; the spec functions here say
//! what `trim`, ASCII case folding, substring search and affix tests mean on
//! those sequences, and the executable functions are proved against them.
use vstd::prelude::*;

verus! {

/// Unicode `White_Space`, the property behind `char::is_whitespace`.
pub open spec fn is_ws(c: char) -> bool {
    ||| '\u{9}' <= c <= '\u{d}'
    ||| c == ' '
    ||| c == '\u{85}'
    ||| c == '\u{a0}'
    ||| c == '\u{1680}'
    ||| '\u{2000}' <= c <= '\u{200a}'
    ||| c == '\u{2028}'
    ||| c == '\u{2029}'
    ||| c == '\u{202f}'
    ||| c == '\u{205f}'
    ||| c == '\u{3000}'
}

pub open spec fn is_ascii_upper(c: char) -> bool {
    'A' <= c <= 'Z'
}

pub open spec fn is_ascii_alnum(c: char) -> bool {
    ||| 'A' <= c <= 'Z'
    ||| 'a' <= c <= 'z'
    ||| '0' <= c <= '9'
}

/// ASCII lower-casing of one character; other characters are unchanged.
pub open spec fn lower(c: char) -> char {
    if is_ascii_upper(c) {
        ((c as u32) + 32) as char
    } else {
        c
    }
}

pub open spec fn lower_seq(s: Seq<char>) -> Seq<char> {
    Seq::new(s.len(), |i: int| lower(s[i]))
}

/// Equality up to ASCII case, as `str::eq_ignore_ascii_case`.
pub open spec fn eq_ignore_case(a: Seq<char>, b: Seq<char>) -> bool {
    lower_seq(a) == lower_seq(b)
}

pub open spec fn has_sub_at(s: Seq<char>, t: Seq<char>, i: int) -> bool {
    0 <= i && i + t.len() <= s.len() && s.subrange(i, i + t.len()) == t
}

/// `t` occurs somewhere in `s`.
pub open spec fn has_sub(s: Seq<char>, t: Seq<char>) -> bool {
    exists|i: int| has_sub_at(s, t, i)
}

pub open spec fn starts_with(s: Seq<char>, p: Seq<char>) -> bool {
    p.len() <= s.len() && s.subrange(0, p.len() as int) == p
}

pub open spec fn ends_with(s: Seq<char>, p: Seq<char>) -> bool {
    p.len() <= s.len() && s.subrange(s.len() - p.len(), s.len() as int) == p
}

pub open spec fn any_ws(s: Seq<char>) -> bool {
    exists|i: int| 0 <= i < s.len() && is_ws(#[trigger] s[i])
}

pub open spec fn trim_start(s: Seq<char>) -> Seq<char>
    decreases s.len(),
{
    if s.len() > 0 && is_ws(s[0]) {
        trim_start(s.drop_first())
    } else {
        s
    }
}

pub open spec fn trim_end(s: Seq<char>) -> Seq<char>
    decreases s.len(),
{
    if s.len() > 0 && is_ws(s.last()) {
        trim_end(s.drop_last())
    } else {
        s
    }
}

/// `str::trim`: leading and trailing white space removed.
pub open spec fn trim(s: Seq<char>) -> Seq<char> {
    trim_end(trim_start(s))
}

pub open spec fn strip_leading(s: Seq<char>, c: char) -> Seq<char>
    decreases s.len(),
{
    if s.len() > 0 && s[0] == c {
        strip_leading(s.drop_first(), c)
    } else {
        s
    }
}

pub open spec fn strip_trailing(s: Seq<char>, c: char) -> Seq<char>
    decreases s.len(),
{
    if s.len() > 0 && s.last() == c {
        strip_trailing(s.drop_last(), c)
    } else {
        s
    }
}

/// `str::trim_matches(c)` for a single character.
pub open spec fn trim_char(s: Seq<char>, c: char) -> Seq<char> {
    strip_trailing(strip_leading(s, c), c)
}

/// The characters of a string.
pub(crate) fn chars_of(s: &str) -> (v: Vec<char>)
    ensures
        v@ == s@,
{
    broadcast use vstd::string::axiom_spec_iter;

    let mut v: Vec<char> = Vec::new();
    for c in it: s.chars()
        invariant
            it.seq() == s@,
            v@ == it.seq().take(it.index()),
    {
        assert(it.seq().take(it.index() + 1) =~= it.seq().take(it.index()).push(c));
        v.push(c);
    }
    assert(s@.take(s@.len() as int) =~= s@);
    v
}

/// The string made of the given characters.
#[verifier::external_body]
pub(crate) fn string_of(v: &[char]) -> (s: String)
    ensures
        s@ == v@,
{
    v.iter().collect()
}

pub fn lower_char(c: char) -> (r: char)
    ensures
        r == lower(c),
{
    if 'A' <= c && c <= 'Z' {
        let code: u8 = c as u8;
        let r = (code + 32) as char;
        assert(r == ((c as u32) + 32) as char);
        r
    } else {
        c
    }
}

pub fn sub_chars(v: &Vec<char>, lo: usize, hi: usize) -> (r: Vec<char>)
    requires
        lo <= hi <= v.len(),
    ensures
        r@ == v@.subrange(lo as int, hi as int),
{
    let mut r: Vec<char> = Vec::new();
    let mut i = lo;
    while i < hi
        invariant
            lo <= i <= hi <= v.len(),
            r@ == v@.subrange(lo as int, i as int),
        decreases hi - i,
    {
        r.push(v[i]);
        i = i + 1;
    }
    r
}

/// `a` followed by `b`.
pub fn cat(a: &str, b: &str) -> (r: String)
    ensures
        r@ == a@ + b@,
{
    let mut r = String::from_str(a);
    r.append(b);
    r
}

pub fn cat3(a: &str, b: &str, c: &str) -> (r: String)
    ensures
        r@ == a@ + b@ + c@,
{
    let mut r = String::from_str(a);
    r.append(b);
    r.append(c);
    r
}

pub fn cat4(a: &str, b: &str, c: &str, d: &str) -> (r: String)
    ensures
        r@ == a@ + b@ + c@ + d@,
{
    let mut r = String::from_str(a);
    r.append(b);
    r.append(c);
    r.append(d);
    r
}

pub fn cat5(a: &str, b: &str, c: &str, d: &str, e: &str) -> (r: String)
    ensures
        r@ == a@ + b@ + c@ + d@ + e@,
{
    let mut r = String::from_str(a);
    r.append(b);
    r.append(c);
    r.append(d);
    r.append(e);
    r
}

pub fn str_eq(a: &str, b: &str) -> (r: bool)
    ensures
        r == (a@ == b@),
{
    let x = String::from_str(a);
    let y = String::from_str(b);
    x == y
}

/// `str::eq_ignore_ascii_case`.
pub fn eq_ignore_ascii_case(a: &str, b: &str) -> (r: bool)
    ensures
        r == eq_ignore_case(a@, b@),
{
    let x = chars_of(a);
    let y = chars_of(b);
    if x.len() != y.len() {
        assert(lower_seq(a@).len() != lower_seq(b@).len());
        return false;
    }
    let mut i: usize = 0;
    while i < x.len()
        invariant
            x@ == a@,
            y@ == b@,
            x.len() == y.len(),
            i <= x.len(),
            forall|j: int| 0 <= j < i ==> lower(#[trigger] x@[j]) == lower(y@[j]),
        decreases x.len() - i,
    {
        if lower_char(x[i]) != lower_char(y[i]) {
            assert(lower_seq(a@)[i as int] != lower_seq(b@)[i as int]);
            return false;
        }
        i = i + 1;
    }
    assert(lower_seq(a@) =~= lower_seq(b@));
    true
}

/// ASCII lower-cased copy, as `str::to_ascii_lowercase`.
pub fn to_ascii_lowercase(s: &str) -> (r: String)
    ensures
        r@ == lower_seq(s@),
{
    let x = chars_of(s);
    let mut out: Vec<char> = Vec::new();
    let mut i: usize = 0;
    while i < x.len()
        invariant
            x@ == s@,
            i <= x.len(),
            out@ =~= lower_seq(x@.subrange(0, i as int)),
        decreases x.len() - i,
    {
        out.push(lower_char(x[i]));
        i = i + 1;
    }
    assert(x@.subrange(0, x.len() as int) =~= x@);
    string_of(out.as_slice())
}

pub fn vec_has_sub_at(s: &Vec<char>, t: &Vec<char>, i: usize) -> (r: bool)
    requires
        i + t.len() <= s.len(),
    ensures
        r == has_sub_at(s@, t@, i as int),
{
    let mut j: usize = 0;
    while j < t.len()
        invariant
            i + t.len() <= s.len(),
            j <= t.len(),
            forall|k: int| 0 <= k < j ==> s@[i + k] == t@[k],
        decreases t.len() - j,
    {
        if s[i + j] != t[j] {
            assert(s@.subrange(i as int, i + t.len())[j as int] != t@[j as int]);
            return false;
        }
        j = j + 1;
    }
    assert(s@.subrange(i as int, i + t.len()) =~= t@);
    true
}

/// `t` occurs in `s`, as `str::contains`.
pub fn contains(s: &str, t: &str) -> (r: bool)
    ensures
        r == has_sub(s@, t@),
{
    let x = chars_of(s);
    let y = chars_of(t);
    if y.len() > x.len() {
        return false;
    }
    let mut i: usize = 0;
    let last = x.len() - y.len();
    while i < last
        invariant
            last == x.len() - y.len(),
            x@ == s@,
            y@ == t@,
            y.len() <= x.len(),
            i <= last,
            forall|k: int| 0 <= k < i ==> !has_sub_at(s@, t@, k),
        decreases last - i,
    {
        if vec_has_sub_at(&x, &y, i) {
            return true;
        }
        i = i + 1;
    }
    if vec_has_sub_at(&x, &y, last) {
        return true;
    }
    assert forall|k: int| !has_sub_at(s@, t@, k) by {
        if 0 <= k && k + t@.len() <= s@.len() {
            assert(k <= i);
        }
    }
    false
}

/// `s` begins with `p`.
pub fn starts_with_str(s: &str, p: &str) -> (r: bool)
    ensures
        r == starts_with(s@, p@),
{
    let x = chars_of(s);
    let y = chars_of(p);
    if y.len() > x.len() {
        return false;
    }
    vec_has_sub_at(&x, &y, 0)
}

/// `s` ends with `p`.
pub fn ends_with_str(s: &str, p: &str) -> (r: bool)
    ensures
        r == ends_with(s@, p@),
{
    let x = chars_of(s);
    let y = chars_of(p);
    if y.len() > x.len() {
        return false;
    }
    vec_has_sub_at(&x, &y, x.len() - y.len())
}

pub fn contains_char(s: &str, c: char) -> (r: bool)
    ensures
        r == s@.contains(c),
{
    let x = chars_of(s);
    let mut i: usize = 0;
    while i < x.len()
        invariant
            x@ == s@,
            i <= x.len(),
            forall|k: int| 0 <= k < i ==> x@[k] != c,
        decreases x.len() - i,
    {
        if x[i] == c {
            return true;
        }
        i = i + 1;
    }
    false
}

pub fn is_whitespace(c: char) -> (r: bool)
    ensures
        r == is_ws(c),
{
    ('\u{9}' <= c && c <= '\u{d}') || c == ' ' || c == '\u{85}' || c == '\u{a0}' || c
        == '\u{1680}' || ('\u{2000}' <= c && c <= '\u{200a}') || c == '\u{2028}' || c
        == '\u{2029}' || c == '\u{202f}' || c == '\u{205f}' || c == '\u{3000}'
}

/// Some character of `s` is white space.
pub fn contains_whitespace(s: &str) -> (r: bool)
    ensures
        r == any_ws(s@),
{
    let x = chars_of(s);
    let mut i: usize = 0;
    while i < x.len()
        invariant
            x@ == s@,
            i <= x.len(),
            forall|k: int| 0 <= k < i ==> !is_ws(#[trigger] x@[k]),
        decreases x.len() - i,
    {
        if is_whitespace(x[i]) {
            return true;
        }
        i = i + 1;
    }
    false
}

pub proof fn lemma_trim_start_skip(s: Seq<char>, i: int)
    requires
        0 <= i < s.len(),
        is_ws(s[i]),
    ensures
        trim_start(s.subrange(i, s.len() as int)) == trim_start(s.subrange(i + 1, s.len() as int)),
{
    assert(s.subrange(i, s.len() as int).drop_first() =~= s.subrange(i + 1, s.len() as int));
}

pub proof fn lemma_trim_end_skip(s: Seq<char>, j: int)
    requires
        0 < j <= s.len(),
        is_ws(s[j - 1]),
    ensures
        trim_end(s.subrange(0, j)) == trim_end(s.subrange(0, j - 1)),
{
    assert(s.subrange(0, j).drop_last() =~= s.subrange(0, j - 1));
}

/// `str::trim`.
pub fn trim_str(s: &str) -> (r: String)
    ensures
        r@ == trim(s@),
{
    let x = chars_of(s);
    let n = x.len();
    let mut i: usize = 0;
    assert(x@.subrange(0, n as int) =~= x@);
    while i < n && is_whitespace(x[i])
        invariant
            x@ == s@,
            n == x.len(),
            i <= n,
            trim_start(s@) == trim_start(x@.subrange(i as int, n as int)),
        decreases n - i,
    {
        proof {
            lemma_trim_start_skip(x@, i as int);
        }
        i = i + 1;
    }
    let ghost rest = x@.subrange(i as int, n as int);
    assert(trim_start(s@) == rest);
    let mut j: usize = n;
    assert(rest.subrange(0, (j - i) as int) =~= rest);
    while j > i && is_whitespace(x[j - 1])
        invariant
            x@ == s@,
            n == x.len(),
            i <= j <= n,
            rest == x@.subrange(i as int, n as int),
            trim_end(rest) == trim_end(rest.subrange(0, (j - i) as int)),
        decreases j,
    {
        proof {
            assert(rest[(j - i - 1) as int] == x@[j - 1]);
            lemma_trim_end_skip(rest, (j - i) as int);
        }
        j = j - 1;
    }
    assert(rest.subrange(0, (j - i) as int) =~= x@.subrange(i as int, j as int));
    let v = sub_chars(&x, i, j);
    string_of(v.as_slice())
}

/// `str::trim_end`.
pub fn trim_end_str(s: &str) -> (r: String)
    ensures
        r@ == trim_end(s@),
{
    let x = chars_of(s);
    let n = x.len();
    let mut j: usize = n;
    assert(x@.subrange(0, n as int) =~= x@);
    while j > 0 && is_whitespace(x[j - 1])
        invariant
            x@ == s@,
            n == x.len(),
            j <= n,
            trim_end(s@) == trim_end(x@.subrange(0, j as int)),
        decreases j,
    {
        proof {
            lemma_trim_end_skip(x@, j as int);
        }
        j = j - 1;
    }
    let v = sub_chars(&x, 0, j);
    string_of(v.as_slice())
}

/// The index of the first line feed, or the length when there is none.
pub open spec fn newline_index(s: Seq<char>) -> int
    decreases s.len(),
{
    if s.len() == 0 {
        0
    } else if s[0] == '\n' {
        0
    } else {
        1 + newline_index(s.drop_first())
    }
}

/// A line without the carriage return that ended it.
pub open spec fn line_body(line: Seq<char>, ended: bool) -> Seq<char> {
    if ended && line.len() > 0 && line.last() == '\r' {
        line.drop_last()
    } else {
        line
    }
}

/// `str::lines`: the text split at line feeds, each line without its
/// `\r\n` or `\n`, with no empty last line after a final line feed.
pub open spec fn lines(s: Seq<char>) -> Seq<Seq<char>>
    decreases s.len(),
{
    if s.len() == 0 {
        Seq::empty()
    } else {
        let i = newline_index(s);
        if 0 <= i < s.len() {
            seq![line_body(s.take(i), true)] + lines(s.skip(i + 1))
        } else {
            seq![line_body(s, false)]
        }
    }
}

pub proof fn lemma_newline_index_bounds(s: Seq<char>)
    ensures
        0 <= newline_index(s) <= s.len(),
        newline_index(s) < s.len() ==> s[newline_index(s)] == '\n',
        forall|k: int| 0 <= k < newline_index(s) ==> s[k] != '\n',
    decreases s.len(),
{
    if s.len() > 0 && s[0] != '\n' {
        lemma_newline_index_bounds(s.drop_first());
        assert forall|k: int| 0 <= k < newline_index(s) implies s[k] != '\n' by {
            if k > 0 {
                assert(s[k] == s.drop_first()[k - 1]);
            }
        }
    }
}

pub proof fn lemma_newline_index_at(s: Seq<char>, j: int)
    requires
        0 <= j <= s.len(),
        j < s.len() ==> s[j] == '\n',
        forall|k: int| 0 <= k < j ==> s[k] != '\n',
    ensures
        newline_index(s) == j,
    decreases j,
{
    if j > 0 {
        assert(s[0] != '\n');
        lemma_newline_index_at(s.drop_first(), j - 1);
    }
}

/// The lines of a text.
pub fn split_lines(s: &str) -> (r: Vec<String>)
    ensures
        r@.map_values(|l: String| l@) == lines(s@),
{
    let x = chars_of(s);
    let n = x.len();
    let mut out: Vec<String> = Vec::new();
    let mut pos: usize = 0;
    assert(x@.skip(0) =~= x@);
    while pos < n
        invariant
            x@ == s@,
            n == x.len(),
            pos <= n,
            out@.map_values(|l: String| l@) + lines(x@.skip(pos as int)) == lines(s@),
        decreases n - pos,
    {
        let mut j: usize = pos;
        while j < n && x[j] != '\n'
            invariant
                pos <= j <= n,
                n == x.len(),
                forall|k: int| pos <= k < j ==> x@[k] != '\n',
            decreases n - j,
        {
            j = j + 1;
        }
        let ghost rest = x@.skip(pos as int);
        proof {
            lemma_newline_index_at(rest, j - pos);
        }
        let ended = j < n;
        let mut end = j;
        if ended && j > pos && x[j - 1] == '\r' {
            end = j - 1;
        }
        let v = sub_chars(&x, pos, end);
        let line = string_of(v.as_slice());
        assert(line@ == line_body(rest.take(j - pos), ended)) by {
            if ended {
                assert(rest.take(j - pos) =~= x@.subrange(pos as int, j as int));
                if j > pos && x[j - 1] == '\r' {
                    assert(x@.subrange(pos as int, j as int).drop_last() =~= x@.subrange(pos as int, (j - 1) as int));
                }
            } else {
                assert(rest =~= x@.subrange(pos as int, j as int));
            }
        }
        let ghost before = out@.map_values(|l: String| l@);
        out.push(line);
        assert(out@.map_values(|l: String| l@) =~= before.push(line@));
        if ended {
            assert(rest.skip(j - pos + 1) =~= x@.skip(j + 1));
            assert(lines(rest) == seq![line@] + lines(x@.skip(j + 1)));
            assert(before.push(line@) + lines(x@.skip(j + 1)) =~= before + lines(rest));
            pos = j + 1;
        } else {
            assert(lines(rest) == seq![line@]);
            assert(x@.skip(n as int) =~= Seq::<char>::empty());
            assert(before.push(line@) + lines(x@.skip(n as int)) =~= before + lines(rest));
            pos = n;
        }
    }
    assert(x@.skip(n as int) =~= Seq::<char>::empty());
    assert(out@.map_values(|l: String| l@) + lines(x@.skip(n as int)) =~= out@.map_values(|l: String| l@));
    out
}

} // verus!

verus! {

pub proof fn lemma_strip_leading_step(s: Seq<char>, i: int, c: char)
    requires
        0 <= i < s.len(),
        s[i] == c,
    ensures
        strip_leading(s.subrange(i, s.len() as int), c) == strip_leading(
            s.subrange(i + 1, s.len() as int),
            c,
        ),
{
    assert(s.subrange(i, s.len() as int).drop_first() =~= s.subrange(i + 1, s.len() as int));
}

pub proof fn lemma_strip_trailing_step(s: Seq<char>, j: int, c: char)
    requires
        0 < j <= s.len(),
        s[j - 1] == c,
    ensures
        strip_trailing(s.subrange(0, j), c) == strip_trailing(s.subrange(0, j - 1), c),
{
    assert(s.subrange(0, j).drop_last() =~= s.subrange(0, j - 1));
}

/// The first index at or after `start` whose character is not `c`.
pub fn skip_char(v: &Vec<char>, start: usize, c: char) -> (r: usize)
    requires
        start <= v.len(),
    ensures
        start <= r <= v.len(),
        strip_leading(v@.subrange(start as int, v.len() as int), c) == v@.subrange(
            r as int,
            v.len() as int,
        ),
{
    let mut i = start;
    while i < v.len() && v[i] == c
        invariant
            start <= i <= v.len(),
            strip_leading(v@.subrange(start as int, v.len() as int), c) == strip_leading(
                v@.subrange(i as int, v.len() as int),
                c,
            ),
        decreases v.len() - i,
    {
        proof {
            lemma_strip_leading_step(v@, i as int, c);
        }
        i = i + 1;
    }
    i
}

/// The last index at or before `end` such that the characters between it
/// and `end` are all `c`, scanning no further back than `lo`.
pub fn skip_char_back(v: &Vec<char>, lo: usize, end: usize, c: char) -> (r: usize)
    requires
        lo <= end <= v.len(),
    ensures
        lo <= r <= end,
        strip_trailing(v@.subrange(lo as int, end as int), c) == v@.subrange(lo as int, r as int),
{
    let ghost s = v@.subrange(lo as int, end as int);
    let mut j = end;
    assert(s.subrange(0, (j - lo) as int) =~= s);
    while j > lo && v[j - 1] == c
        invariant
            lo <= j <= end <= v.len(),
            s == v@.subrange(lo as int, end as int),
            strip_trailing(s, c) == strip_trailing(s.subrange(0, (j - lo) as int), c),
        decreases j,
    {
        proof {
            assert(s[(j - lo - 1) as int] == v@[j - 1]);
            lemma_strip_trailing_step(s, (j - lo) as int, c);
        }
        j = j - 1;
    }
    assert(s.subrange(0, (j - lo) as int) =~= v@.subrange(lo as int, j as int));
    j
}

} // verus!

verus! {

pub open spec fn digit_char(d: int) -> char {
    (('0' as u32) + d) as char
}

/// The decimal digits of `n`, without leading zeros.
pub open spec fn decimal(n: nat) -> Seq<char>
    decreases n,
{
    if n < 10 {
        seq![digit_char(n as int)]
    } else {
        decimal(n / 10) + seq![digit_char((n % 10) as int)]
    }
}

fn digit(d: u64) -> (c: char)
    requires
        d < 10,
    ensures
        c == digit_char(d as int),
{
    let b: u8 = d as u8;
    (b + 48) as char
}

/// The decimal rendering of a number, as `u64::to_string`.
pub fn decimal_string(n: u64) -> (r: String)
    ensures
        r@ == decimal(n as nat),
    decreases n,
{
    if n < 10 {
        let v = vec![digit(n)];
        proof {
            assert(v@ =~= decimal(n as nat));
        }
        string_of(v.as_slice())
    } else {
        let head = decimal_string(n / 10);
        let v = vec![digit(n % 10)];
        let tail = string_of(v.as_slice());
        cat(head.as_str(), tail.as_str())
    }
}

} // verus!

verus! {

/// The longest prefix without a `/`.
pub open spec fn take_word(s: Seq<char>) -> Seq<char>
    decreases s.len(),
{
    if s.len() == 0 || s[0] == '/' {
        Seq::<char>::empty()
    } else {
        seq![s[0]] + take_word(s.drop_first())
    }
}

pub proof fn lemma_take_word_len(s: Seq<char>)
    ensures
        take_word(s).len() <= s.len(),
        take_word(s) == s.subrange(0, take_word(s).len() as int),
    decreases s.len(),
{
    if s.len() > 0 && s[0] != '/' {
        lemma_take_word_len(s.drop_first());
        assert(take_word(s) =~= s.subrange(0, take_word(s).len() as int));
    }
}

/// The end of the word that starts at `start`.
pub fn scan_word(v: &Vec<char>, start: usize) -> (r: usize)
    requires
        start <= v.len(),
    ensures
        start <= r <= v.len(),
        take_word(v@.subrange(start as int, v.len() as int)) == v@.subrange(start as int, r as int),
{
    let mut j = start;
    while j < v.len() && v[j] != '/'
        invariant
            start <= j <= v.len(),
            take_word(v@.subrange(start as int, v.len() as int)) == v@.subrange(start as int, j as int)
                + take_word(v@.subrange(j as int, v.len() as int)),
        decreases v.len() - j,
    {
        let ghost t = v@.subrange(j as int, v.len() as int);
        assert(t.drop_first() =~= v@.subrange(j + 1, v.len() as int));
        assert(v@.subrange(start as int, j as int) + seq![v@[j as int]] =~= v@.subrange(start as int, j + 1));
        j = j + 1;
    }
    let ghost t = v@.subrange(j as int, v.len() as int);
    assert(take_word(t) =~= Seq::<char>::empty());
    assert(v@.subrange(start as int, j as int) + Seq::<char>::empty() =~= v@.subrange(start as int, j as int));
    j
}

} // verus!

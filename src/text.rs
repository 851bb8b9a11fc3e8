//! Character-level helpers shared by the other modules: whitespace, decimal
//! digits, lines, joining, searching and lower-casing.

use vstd::prelude::*;
use vstd::string::*;
use vstd::utf8::encode_utf8;

verus! {

/// Relies on `String::push`: appends one character at the end.
pub assume_specification[ String::push ](s: &mut String, ch: char)
    ensures
        final(s)@ == old(s)@.push(ch),
;

/// What `str::to_lowercase` makes of a character sequence.
pub uninterp spec fn lower_of(s: Seq<char>) -> Seq<char>;

/// Relies on `str::to_lowercase`: the lower-case form depends on the
/// characters alone.
#[verifier::external_body]
pub(crate) fn lowercase(s: &str) -> (r: String)
    ensures
        r@ == lower_of(s@),
{
    s.to_lowercase()
}

/// Unicode `White_Space`, the set `char::is_whitespace` tests.
pub open spec fn is_ws(c: char) -> bool {
    ('\u{9}' <= c && c <= '\u{d}') || c == ' ' || c == '\u{85}' || c == '\u{a0}'
        || c == '\u{1680}' || ('\u{2000}' <= c && c <= '\u{200a}') || c == '\u{2028}'
        || c == '\u{2029}' || c == '\u{202f}' || c == '\u{205f}' || c == '\u{3000}'
}

pub fn is_whitespace(c: char) -> (r: bool)
    ensures
        r == is_ws(c),
{
    ('\u{9}' <= c && c <= '\u{d}') || c == ' ' || c == '\u{85}' || c == '\u{a0}'
        || c == '\u{1680}' || ('\u{2000}' <= c && c <= '\u{200a}') || c == '\u{2028}'
        || c == '\u{2029}' || c == '\u{202f}' || c == '\u{205f}' || c == '\u{3000}'
}

/// The characters of `s`, in order.
pub fn chars_of(s: &str) -> (r: Vec<char>)
    ensures
        r@ == s@,
{
    let mut v: Vec<char> = Vec::new();
    for c in iter: s.chars()
        invariant
            v@ == iter.seq().take(iter.index() as int),
            iter.seq() == s@,
    {
        v.push(c);
    }
    v
}

/// The string made of the characters of `v`, in order.
pub fn string_of(v: &Vec<char>) -> (r: String)
    ensures
        r@ == v@,
{
    let mut s = String::new();
    let mut i: usize = 0;
    while i < v.len()
        invariant
            i <= v.len(),
            s@ == v@.take(i as int),
        decreases v.len() - i,
    {
        s.push(v[i]);
        assert(v@.take(i + 1) == v@.take(i as int).push(v@[i as int]));
        i = i + 1;
    }
    assert(v@.take(v.len() as int) == v@);
    s
}

/// Appends `t` to `s`.
pub fn push_text(s: &mut String, t: &str)
    ensures
        final(s)@ == old(s)@ + t@,
{
    s.append(t);
}

/// The decimal digit for `d < 10`.
pub open spec fn digit(d: nat) -> char {
    if d == 0 {
        '0'
    } else if d == 1 {
        '1'
    } else if d == 2 {
        '2'
    } else if d == 3 {
        '3'
    } else if d == 4 {
        '4'
    } else if d == 5 {
        '5'
    } else if d == 6 {
        '6'
    } else if d == 7 {
        '7'
    } else if d == 8 {
        '8'
    } else {
        '9'
    }
}

/// Decimal notation of `n`, without leading zeros.
pub open spec fn decimal(n: nat) -> Seq<char>
    decreases n,
{
    if n < 10 {
        seq![digit(n)]
    } else {
        decimal(n / 10).push(digit(n % 10))
    }
}

fn digit_char(d: u64) -> (r: char)
    requires
        d < 10,
    ensures
        r == digit(d as nat),
{
    if d == 0 {
        '0'
    } else if d == 1 {
        '1'
    } else if d == 2 {
        '2'
    } else if d == 3 {
        '3'
    } else if d == 4 {
        '4'
    } else if d == 5 {
        '5'
    } else if d == 6 {
        '6'
    } else if d == 7 {
        '7'
    } else if d == 8 {
        '8'
    } else {
        '9'
    }
}

/// Appends the decimal notation of `n` to `s`.
pub fn push_decimal(s: &mut String, n: u64)
    ensures
        final(s)@ == old(s)@ + decimal(n as nat),
    decreases n,
{
    if n >= 10 {
        push_decimal(s, n / 10);
    }
    s.push(digit_char(n % 10));
    assert(old(s)@ + decimal(n as nat) == old(s)@ + (if n < 10 {
        Seq::<char>::empty()
    } else {
        decimal((n / 10) as nat)
    }).push(digit((n % 10) as nat)));
}

/// `w` stands in `t` at position `j`.
pub open spec fn occurs_at(t: Seq<char>, w: Seq<char>, j: int) -> bool {
    0 <= j && j + w.len() <= t.len() && t.subrange(j, j + w.len()) == w
}

/// `w` stands somewhere in `t`.
pub open spec fn contains(t: Seq<char>, w: Seq<char>) -> bool {
    exists|j: int| occurs_at(t, w, j)
}

pub fn matches_at(t: &Vec<char>, w: &Vec<char>, j: usize) -> (r: bool)
    ensures
        r == occurs_at(t@, w@, j as int),
{
    if j > t.len() || w.len() > t.len() - j {
        return false;
    }
    let mut k: usize = 0;
    while k < w.len()
        invariant
            j + w.len() <= t.len(),
            k <= w.len(),
            forall|m: int| 0 <= m < k ==> t@[j + m] == w@[m],
        decreases w.len() - k,
    {
        if t[j + k] != w[k] {
            assert(t@.subrange(j as int, j + w.len())[k as int] != w@[k as int]);
            return false;
        }
        k = k + 1;
    }
    assert(t@.subrange(j as int, j + w.len()) == w@);
    true
}

pub fn contains_chars(t: &Vec<char>, w: &Vec<char>) -> (r: bool)
    ensures
        r == contains(t@, w@),
{
    if w.len() > t.len() {
        return false;
    }
    let last = t.len() - w.len();
    let mut j: usize = 0;
    loop
        invariant
            w.len() <= t.len(),
            last == t.len() - w.len(),
            j <= last,
            forall|m: int| 0 <= m < j ==> !occurs_at(t@, w@, m),
        ensures
            forall|m: int| 0 <= m <= last ==> !occurs_at(t@, w@, m),
        decreases last - j,
    {
        if matches_at(t, w, j) {
            return true;
        }
        if j == last {
            break;
        }
        j = j + 1;
    }
    assert forall|m: int| !occurs_at(t@, w@, m) by {
        if 0 <= m && m + w.len() <= t.len() {
            assert(m <= last);
        }
    }
    false
}

pub fn same_text(a: &str, b: &str) -> (r: bool)
    ensures
        r == (a@ == b@),
{
    let x = chars_of(a);
    let y = chars_of(b);
    if x.len() != y.len() {
        return false;
    }
    let r = matches_at(&x, &y, 0);
    assert(x@.subrange(0, y@.len() as int) == x@);
    r
}

/// The views of a sequence of character vectors.
pub open spec fn views(v: Seq<Vec<char>>) -> Seq<Seq<char>> {
    v.map_values(|x: Vec<char>| x@)
}

/// The views of a sequence of strings.
pub open spec fn string_views(v: Seq<String>) -> Seq<Seq<char>> {
    v.map_values(|x: String| x@)
}

pub open spec fn no_newline(l: Seq<char>) -> bool {
    forall|m: int| 0 <= m < l.len() ==> l[m] != '\n'
}

/// A line without the carriage return that ended it.
pub open spec fn strip_cr(l: Seq<char>) -> Seq<char> {
    if l.len() > 0 && l.last() == '\r' {
        l.drop_last()
    } else {
        l
    }
}

/// Lines ended so far, and the line under way, after reading `s`.
pub open spec fn split_state(s: Seq<char>) -> (Seq<Seq<char>>, Seq<char>)
    decreases s.len(),
{
    if s.len() == 0 {
        (seq![], seq![])
    } else {
        let st = split_state(s.drop_last());
        if s.last() == '\n' {
            (st.0.push(strip_cr(st.1)), seq![])
        } else {
            (st.0, st.1.push(s.last()))
        }
    }
}

/// The lines of `s`, as `str::lines` gives them: split at each line feed, a
/// carriage return before it dropped, and no empty line after a final line
/// feed.
pub open spec fn lines_of(s: Seq<char>) -> Seq<Seq<char>> {
    let st = split_state(s);
    if st.1.len() > 0 {
        st.0.push(st.1)
    } else {
        st.0
    }
}

/// `parts` with a line feed between each two.
pub open spec fn join_nl(parts: Seq<Seq<char>>) -> Seq<char>
    decreases parts.len(),
{
    if parts.len() == 0 {
        seq![]
    } else if parts.len() == 1 {
        parts[0]
    } else {
        join_nl(parts.drop_last()) + seq!['\n'] + parts.last()
    }
}

fn strip_cr_vec(l: &mut Vec<char>)
    ensures
        final(l)@ == strip_cr(old(l)@),
{
    if l.len() > 0 && l[l.len() - 1] == '\r' {
        l.pop();
    }
}

pub fn split_lines(s: &Vec<char>) -> (r: Vec<Vec<char>>)
    ensures
        views(r@) == lines_of(s@),
        forall|k: int| 0 <= k < r@.len() ==> no_newline(#[trigger] r@[k]@),
{
    let mut done: Vec<Vec<char>> = Vec::new();
    let mut cur: Vec<char> = Vec::new();
    let mut i: usize = 0;
    while i < s.len()
        invariant
            i <= s.len(),
            views(done@) == split_state(s@.take(i as int)).0,
            cur@ == split_state(s@.take(i as int)).1,
            no_newline(cur@),
            forall|k: int| 0 <= k < done@.len() ==> no_newline(#[trigger] done@[k]@),
        decreases s.len() - i,
    {
        let c = s[i];
        assert(s@.take(i + 1).drop_last() == s@.take(i as int));
        if c == '\n' {
            let mut line = cur;
            strip_cr_vec(&mut line);
            done.push(line);
            cur = Vec::new();
            assert(views(done@) == split_state(s@.take(i as int)).0.push(strip_cr(split_state(s@.take(i as int)).1)));
        } else {
            cur.push(c);
        }
        i = i + 1;
    }
    assert(s@.take(s.len() as int) == s@);
    if cur.len() > 0 {
        done.push(cur);
        assert(views(done@) == split_state(s@).0.push(split_state(s@).1));
    }
    done
}

/// Appends the first `n` of `parts`, a line feed between each two.
pub fn push_joined(out: &mut String, parts: &Vec<Vec<char>>, n: usize)
    requires
        n <= parts@.len(),
    ensures
        final(out)@ == old(out)@ + join_nl(views(parts@).take(n as int)),
{
    let mut k: usize = 0;
    while k < n
        invariant
            k <= n,
            n <= parts@.len(),
            out@ == old(out)@ + join_nl(views(parts@).take(k as int)),
        decreases n - k,
    {
        let ghost before = out@;
        if k > 0 {
            out.push('\n');
        }
        let line = &parts[k];
        let mut m: usize = 0;
        while m < line.len()
            invariant
                m <= line.len(),
                out@ == before + (if k > 0 { seq!['\n'] } else { Seq::<char>::empty() })
                    + line@.take(m as int),
            decreases line.len() - m,
        {
            out.push(line[m]);
            assert(line@.take(m + 1) == line@.take(m as int).push(line@[m as int]));
            m = m + 1;
        }
        assert(line@.take(line.len() as int) == line@);
        let ghost p = views(parts@).take(k + 1);
        assert(p.drop_last() == views(parts@).take(k as int));
        assert(p.last() == line@);
        k = k + 1;
    }
}

/// Byte length of the UTF-8 form of `s`.
pub open spec fn byte_len(s: Seq<char>) -> nat {
    encode_utf8(s).len()
}

pub fn byte_length(s: &str) -> (r: usize)
    ensures
        r == byte_len(s@),
{
    s.as_bytes().len()
}

/// The UTF-8 form of a concatenation is the concatenation of the forms.
pub proof fn lemma_encode_concat(a: Seq<char>, b: Seq<char>)
    ensures
        encode_utf8(a + b) == encode_utf8(a) + encode_utf8(b),
    decreases a.len(),
{
    if a.len() == 0 {
        assert(a + b == b);
    } else {
        lemma_encode_concat(a.drop_first(), b);
        assert((a + b).drop_first() == a.drop_first() + b);
        assert((a + b)[0] == a[0]);
    }
}

} // verus!

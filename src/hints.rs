//! Output-format hints in a question: which shape it asks for, and the
//! question with the hint phrases taken out.

use vstd::prelude::*;
use vstd::utf8::{encode_utf8, encode_utf8_valid_utf8, valid_utf8};
use crate::api::OutputType;
use crate::text::{
    chars_of, contains, contains_chars, is_whitespace, is_ws, lower_of, lowercase, matches_at,
    occurs_at, string_of, views,
};

verus! {

/// Phrases that ask for a table, in lower case.
pub open spec fn table_phrases() -> Seq<Seq<char>> {
    seq![
        "таблица"@,
        "table"@,
        "таблицу"@,
        "таблицей"@,
        "в таблице"@,
        "как таблица"@,
        "покажи таблицу"@,
        "табличный"@,
        "табличный формат"@,
    ]
}

/// Phrases that ask for a chart, in lower case.
pub open spec fn chart_phrases() -> Seq<Seq<char>> {
    seq![
        "диаграмма"@,
        "chart"@,
        "график"@,
        "графиком"@,
        "диаграмму"@,
        "диаграммой"@,
        "в диаграмме"@,
        "как диаграмма"@,
        "покажи диаграмму"@,
        "визуализация"@,
        "визуализацию"@,
        "визуализацией"@,
        "визуализировать"@,
        "графически"@,
        "графический"@,
        "plot"@,
        "нарисуй"@,
        "построй"@,
        "visualization"@,
    ]
}

/// Every hint phrase that is taken out of a question.
pub open spec fn hint_phrases() -> Seq<Seq<char>> {
    table_phrases() + chart_phrases()
}

/// Some phrase of `ps` stands in `t`.
pub open spec fn any_phrase(t: Seq<char>, ps: Seq<Seq<char>>) -> bool {
    exists|p: int| 0 <= p < ps.len() && contains(t, #[trigger] ps[p])
}

/// The shape asked for by a question whose lower-case form is `lower`: a
/// chart phrase wins over a table phrase, and either over `json`.
pub open spec fn kind_of(lower: Seq<char>) -> OutputType {
    if any_phrase(lower, chart_phrases()) {
        OutputType::Chart
    } else if any_phrase(lower, table_phrases()) {
        OutputType::Table
    } else if contains(lower, "json"@) {
        OutputType::Json
    } else {
        OutputType::Auto
    }
}

/// Position `k` lies inside an occurrence of a phrase of `ps` in `lower`.
pub open spec fn covered(lower: Seq<char>, ps: Seq<Seq<char>>, k: int) -> bool {
    exists|p: int, j: int|
        0 <= p < ps.len() && #[trigger] occurs_at(lower, ps[p], j) && j <= k < j + ps[p].len()
}

/// `text` without the characters at positions that a hint phrase covers in
/// `lower`.
pub open spec fn strip_phrases(text: Seq<char>, lower: Seq<char>) -> Seq<char>
    decreases text.len(),
{
    if text.len() == 0 {
        seq![]
    } else {
        let p = strip_phrases(text.drop_last(), lower);
        if covered(lower, hint_phrases(), text.len() - 1) {
            p
        } else {
            p.push(text.last())
        }
    }
}

/// The words of `s` with one space between each two.
pub open spec fn collapse_ws(s: Seq<char>) -> Seq<char>
    decreases s.len(),
{
    if s.len() == 0 {
        seq![]
    } else {
        let p = collapse_ws(s.drop_last());
        let c = s.last();
        if is_ws(c) {
            p
        } else if s.len() >= 2 && is_ws(s[s.len() - 2]) && p.len() > 0 {
            p + seq![' ', c]
        } else {
            p.push(c)
        }
    }
}

/// A character trimmed from either end of a cleaned question.
pub open spec fn is_edge(c: char) -> bool {
    c == ',' || is_ws(c)
}

pub open spec fn trim_front(s: Seq<char>) -> Seq<char>
    decreases s.len(),
{
    if s.len() > 0 && is_edge(s[0]) {
        trim_front(s.drop_first())
    } else {
        s
    }
}

pub open spec fn trim_back(s: Seq<char>) -> Seq<char>
    decreases s.len(),
{
    if s.len() > 0 && is_edge(s.last()) {
        trim_back(s.drop_last())
    } else {
        s
    }
}

/// Whitespace runs collapsed to one space, commas and spaces trimmed from
/// both ends.
pub open spec fn normalize(s: Seq<char>) -> Seq<char> {
    trim_back(trim_front(collapse_ws(s)))
}

/// The question without its hint phrases, normalized. Phrase positions are
/// found in the lower-case form, so they are cut from the question only when
/// lower-casing kept the number of characters; otherwise the question is only
/// normalized.
pub open spec fn stripped(text: Seq<char>, lower: Seq<char>) -> Seq<char> {
    if lower.len() == text.len() {
        strip_phrases(text, lower)
    } else {
        text
    }
}

pub open spec fn cleaned(text: Seq<char>, lower: Seq<char>) -> Seq<char> {
    normalize(stripped(text, lower))
}

fn table_phrase_list() -> (r: Vec<Vec<char>>)
    ensures
        views(r@) == table_phrases(),
{
    let mut r: Vec<Vec<char>> = Vec::new();
    r.push(chars_of("таблица"));
    r.push(chars_of("table"));
    r.push(chars_of("таблицу"));
    r.push(chars_of("таблицей"));
    r.push(chars_of("в таблице"));
    r.push(chars_of("как таблица"));
    r.push(chars_of("покажи таблицу"));
    r.push(chars_of("табличный"));
    r.push(chars_of("табличный формат"));
    assert(views(r@) =~= table_phrases());
    r
}

fn chart_phrase_list() -> (r: Vec<Vec<char>>)
    ensures
        views(r@) == chart_phrases(),
{
    let mut r: Vec<Vec<char>> = Vec::new();
    r.push(chars_of("диаграмма"));
    r.push(chars_of("chart"));
    r.push(chars_of("график"));
    r.push(chars_of("графиком"));
    r.push(chars_of("диаграмму"));
    r.push(chars_of("диаграммой"));
    r.push(chars_of("в диаграмме"));
    r.push(chars_of("как диаграмма"));
    r.push(chars_of("покажи диаграмму"));
    r.push(chars_of("визуализация"));
    r.push(chars_of("визуализацию"));
    r.push(chars_of("визуализацией"));
    r.push(chars_of("визуализировать"));
    r.push(chars_of("графически"));
    r.push(chars_of("графический"));
    r.push(chars_of("plot"));
    r.push(chars_of("нарисуй"));
    r.push(chars_of("построй"));
    r.push(chars_of("visualization"));
    assert(views(r@) =~= chart_phrases());
    r
}

fn has_any_phrase(t: &Vec<char>, ps: &Vec<Vec<char>>) -> (r: bool)
    ensures
        r == any_phrase(t@, views(ps@)),
{
    let mut p: usize = 0;
    while p < ps.len()
        invariant
            p <= ps.len(),
            forall|q: int| 0 <= q < p ==> !contains(t@, #[trigger] views(ps@)[q]),
        decreases ps.len() - p,
    {
        if contains_chars(t, &ps[p]) {
            assert(contains(t@, views(ps@)[p as int]));
            return true;
        }
        p = p + 1;
    }
    false
}

fn is_covered(lower: &Vec<char>, ps: &Vec<Vec<char>>, k: usize) -> (r: bool)
    ensures
        r == covered(lower@, views(ps@), k as int),
{
    let ghost vs = views(ps@);
    let mut p: usize = 0;
    while p < ps.len()
        invariant
            p <= ps.len(),
            vs == views(ps@),
            forall|q: int, j: int|
                0 <= q < p && #[trigger] occurs_at(lower@, vs[q], j) ==> !(j <= k < j
                    + vs[q].len()),
        decreases ps.len() - p,
    {
        let w = &ps[p];
        let mut d: usize = 0;
        while d < w.len()
            invariant
                p < ps.len(),
                vs == views(ps@),
                w@ == vs[p as int],
                d <= w.len(),
                forall|q: int, j: int|
                    0 <= q < p && #[trigger] occurs_at(lower@, vs[q], j) ==> !(j <= k < j
                        + vs[q].len()),
                forall|j: int|
                    k - d < j <= k ==> !#[trigger] occurs_at(lower@, vs[p as int], j),
            decreases w.len() - d,
        {
            if d <= k && matches_at(lower, w, k - d) {
                assert(occurs_at(lower@, vs[p as int], k - d));
                return true;
            }
            d = d + 1;
        }
        p = p + 1;
    }
    false
}

fn strip_hint_phrases(text: &Vec<char>, lower: &Vec<char>) -> (r: Vec<char>)
    ensures
        r@ == strip_phrases(text@, lower@),
{
    let mut ps = table_phrase_list();
    let mut more = chart_phrase_list();
    ps.append(&mut more);
    assert(views(ps@) =~= hint_phrases());
    let mut r: Vec<char> = Vec::new();
    let mut i: usize = 0;
    while i < text.len()
        invariant
            i <= text.len(),
            views(ps@) == hint_phrases(),
            r@ == strip_phrases(text@.take(i as int), lower@),
        decreases text.len() - i,
    {
        assert(text@.take(i + 1).drop_last() == text@.take(i as int));
        if !is_covered(lower, &ps, i) {
            r.push(text[i]);
        }
        i = i + 1;
    }
    assert(text@.take(text.len() as int) == text@);
    r
}

fn collapse_whitespace(s: &Vec<char>) -> (r: Vec<char>)
    ensures
        r@ == collapse_ws(s@),
{
    let mut r: Vec<char> = Vec::new();
    let mut i: usize = 0;
    while i < s.len()
        invariant
            i <= s.len(),
            r@ == collapse_ws(s@.take(i as int)),
        decreases s.len() - i,
    {
        let ghost t = s@.take(i + 1);
        assert(t.drop_last() == s@.take(i as int));
        let c = s[i];
        if is_whitespace(c) {
        } else if i >= 1 && is_whitespace(s[i - 1]) && r.len() > 0 {
            assert(t[t.len() - 2] == s@[i - 1]);
            r.push(' ');
            r.push(c);
            assert(r@ == collapse_ws(s@.take(i as int)) + seq![' ', c]);
        } else {
            r.push(c);
        }
        i = i + 1;
    }
    assert(s@.take(s.len() as int) == s@);
    r
}

fn is_edge_char(c: char) -> (r: bool)
    ensures
        r == is_edge(c),
{
    c == ',' || is_whitespace(c)
}

fn trim_edges(s: &Vec<char>) -> (r: Vec<char>)
    ensures
        r@ == trim_back(trim_front(s@)),
{
    let mut a: usize = 0;
    assert(s@.subrange(0, s.len() as int) == s@);
    while a < s.len() && is_edge_char(s[a])
        invariant
            a <= s.len(),
            trim_front(s@) == trim_front(s@.subrange(a as int, s.len() as int)),
        decreases s.len() - a,
    {
        assert(s@.subrange(a as int, s.len() as int).drop_first() == s@.subrange(
            a + 1,
            s.len() as int,
        ));
        a = a + 1;
    }
    let ghost t = s@.subrange(a as int, s.len() as int);
    assert(trim_front(t) == t);
    let mut b: usize = s.len();
    while b > a && is_edge_char(s[b - 1])
        invariant
            a <= b <= s.len(),
            t == s@.subrange(a as int, s.len() as int),
            trim_back(t) == trim_back(s@.subrange(a as int, b as int)),
        decreases b - a,
    {
        assert(s@.subrange(a as int, b as int).drop_last() == s@.subrange(
            a as int,
            b - 1,
        ));
        b = b - 1;
    }
    let mut r: Vec<char> = Vec::new();
    let mut i: usize = a;
    while i < b
        invariant
            a <= i <= b,
            b <= s.len(),
            r@ == s@.subrange(a as int, i as int),
        decreases b - i,
    {
        r.push(s[i]);
        assert(s@.subrange(a as int, i + 1) == s@.subrange(a as int, i as int).push(s@[i as int]));
        i = i + 1;
    }
    r
}

/// The shape a question asks for and the question without its hint phrases,
/// given the question's lower-case form.
pub fn detect_output_format_folded(text: &str, lowered: &str) -> (r: (String, OutputType))
    ensures
        r.0@ == cleaned(text@, lowered@),
        r.1 == kind_of(lowered@),
{
    let lower = chars_of(lowered);
    let tables = table_phrase_list();
    let charts = chart_phrase_list();
    let kind = if has_any_phrase(&lower, &charts) {
        OutputType::Chart
    } else if has_any_phrase(&lower, &tables) {
        OutputType::Table
    } else if contains_chars(&lower, &chars_of("json")) {
        OutputType::Json
    } else {
        OutputType::Auto
    };
    let cs = chars_of(text);
    let kept = if lower.len() == cs.len() {
        strip_hint_phrases(&cs, &lower)
    } else {
        cs
    };
    let collapsed = collapse_whitespace(&kept);
    let trimmed = trim_edges(&collapsed);
    (string_of(&trimmed), kind)
}

/// The shape a question asks for, matched without regard to case, and the
/// question without its hint phrases.
pub fn detect_output_format(text: &str) -> (r: (String, OutputType))
    ensures
        r.0@ == cleaned(text@, lower_of(text@)),
        r.1 == kind_of(lower_of(text@)),
{
    let lowered = lowercase(text);
    detect_output_format_folded(text, &lowered)
}

/// Every whitespace character is a space, and no two stand together.
pub open spec fn single_spaced(t: Seq<char>) -> bool {
    forall|i: int|
        0 <= i < t.len() && #[trigger] is_ws(t[i]) ==> t[i] == ' ' && (i + 1 < t.len()
            ==> !is_ws(t[i + 1]))
}

/// The shape of a normalized question: single spaces between words, and no
/// comma or whitespace at either end.
pub open spec fn normalized_shape(t: Seq<char>) -> bool {
    &&& single_spaced(t)
    &&& t.len() > 0 ==> !is_edge(t[0]) && !is_edge(t.last())
}

/// Each character of `t` is a space or a character of `s`.
pub open spec fn drawn_from(t: Seq<char>, s: Seq<char>) -> bool {
    forall|i: int| 0 <= i < t.len() ==> t[i] == ' ' || s.contains(#[trigger] t[i])
}

proof fn lemma_collapse_shape(s: Seq<char>)
    ensures
        single_spaced(collapse_ws(s)),
        collapse_ws(s).len() > 0 ==> !is_ws(collapse_ws(s)[0]) && !is_ws(collapse_ws(s).last()),
        drawn_from(collapse_ws(s), s),
    decreases s.len(),
{
    if s.len() > 0 {
        let p = collapse_ws(s.drop_last());
        lemma_collapse_shape(s.drop_last());
        let c = s.last();
        let r = collapse_ws(s);
        assert forall|i: int| 0 <= i < p.len() implies s.contains(p[i]) || p[i] == ' ' by {
            if p[i] != ' ' {
                let k = choose|k: int| 0 <= k < s.drop_last().len() && s.drop_last()[k] == p[i];
                assert(s[k] == p[i]);
            }
        }
        assert(s[s.len() - 1] == c);
        if !is_ws(c) {
            assert forall|i: int| 0 <= i < r.len() && #[trigger] is_ws(r[i]) implies r[i] == ' '
                && (i + 1 < r.len() ==> !is_ws(r[i + 1])) by {
                if i < p.len() {
                    assert(r[i] == p[i]);
                    if i + 1 < p.len() {
                        assert(r[i + 1] == p[i + 1]);
                    }
                }
            }
        }
    }
}

proof fn lemma_trim_front(s: Seq<char>)
    requires
        single_spaced(s),
    ensures
        single_spaced(trim_front(s)),
        trim_front(s).len() > 0 ==> !is_edge(trim_front(s)[0]),
        trim_front(s).len() > 0 && s.len() > 0 ==> trim_front(s).last() == s.last(),
        drawn_from(trim_front(s), s),
    decreases s.len(),
{
    if s.len() > 0 && is_edge(s[0]) {
        let t = s.drop_first();
        assert forall|i: int| 0 <= i < t.len() && #[trigger] is_ws(t[i]) implies t[i] == ' ' && (
        i + 1 < t.len() ==> !is_ws(t[i + 1])) by {
            assert(t[i] == s[i + 1]);
        }
        lemma_trim_front(t);
        assert forall|i: int| 0 <= i < trim_front(t).len() implies trim_front(t)[i] == ' '
            || s.contains(#[trigger] trim_front(t)[i]) by {
            if trim_front(t)[i] != ' ' {
                let k = choose|k: int| 0 <= k < t.len() && t[k] == trim_front(t)[i];
                assert(s[k + 1] == t[k]);
            }
        }
    } else {
        assert forall|i: int| 0 <= i < s.len() implies s[i] == ' ' || s.contains(#[trigger] s[i]) by {
        }
    }
}

proof fn lemma_trim_back(s: Seq<char>)
    requires
        single_spaced(s),
    ensures
        single_spaced(trim_back(s)),
        trim_back(s).len() > 0 ==> !is_edge(trim_back(s).last()) && trim_back(s)[0] == s[0],
        drawn_from(trim_back(s), s),
    decreases s.len(),
{
    if s.len() > 0 && is_edge(s.last()) {
        let t = s.drop_last();
        assert forall|i: int| 0 <= i < t.len() && #[trigger] is_ws(t[i]) implies t[i] == ' ' && (
        i + 1 < t.len() ==> !is_ws(t[i + 1])) by {
            assert(t[i] == s[i]);
        }
        lemma_trim_back(t);
        assert forall|i: int| 0 <= i < trim_back(t).len() implies trim_back(t)[i] == ' '
            || s.contains(#[trigger] trim_back(t)[i]) by {
            if trim_back(t)[i] != ' ' {
                let k = choose|k: int| 0 <= k < t.len() && t[k] == trim_back(t)[i];
                assert(s[k] == t[k]);
            }
        }
    } else {
        assert forall|i: int| 0 <= i < s.len() implies s[i] == ' ' || s.contains(#[trigger] s[i]) by {
        }
    }
}

proof fn lemma_normalize(s: Seq<char>)
    ensures
        normalized_shape(normalize(s)),
        drawn_from(normalize(s), s),
{
    let c = collapse_ws(s);
    lemma_collapse_shape(s);
    lemma_trim_front(c);
    let f = trim_front(c);
    lemma_trim_back(f);
    let n = trim_back(f);
    assert forall|i: int| 0 <= i < n.len() implies n[i] == ' ' || s.contains(#[trigger] n[i]) by {
        if n[i] != ' ' {
            let k = choose|k: int| 0 <= k < f.len() && f[k] == n[i];
            if f[k] != ' ' {
                let m = choose|m: int| 0 <= m < c.len() && c[m] == f[k];
            }
        }
    }
}

proof fn lemma_strip_drawn(text: Seq<char>, lower: Seq<char>)
    ensures
        drawn_from(strip_phrases(text, lower), text),
    decreases text.len(),
{
    if text.len() > 0 {
        let t = text.drop_last();
        lemma_strip_drawn(t, lower);
        let p = strip_phrases(t, lower);
        let r = strip_phrases(text, lower);
        assert forall|i: int| 0 <= i < r.len() implies r[i] == ' ' || text.contains(
            #[trigger] r[i],
        ) by {
            if i < p.len() {
                if p[i] != ' ' {
                    let k = choose|k: int| 0 <= k < t.len() && t[k] == p[i];
                    assert(text[k] == t[k]);
                }
            } else {
                assert(text[text.len() - 1] == r[i]);
            }
        }
    }
}

proof fn lemma_strip_nothing(text: Seq<char>, lower: Seq<char>)
    requires
        !any_phrase(lower, hint_phrases()),
    ensures
        strip_phrases(text, lower) == text,
    decreases text.len(),
{
    if text.len() > 0 {
        lemma_strip_nothing(text.drop_last(), lower);
        if covered(lower, hint_phrases(), text.len() - 1) {
            let (p, j) = choose|p: int, j: int|
                0 <= p < hint_phrases().len() && #[trigger] occurs_at(
                    lower,
                    hint_phrases()[p],
                    j,
                ) && j <= text.len() - 1 < j + hint_phrases()[p].len();
            assert(contains(lower, hint_phrases()[p]));
        }
        assert(text.drop_last().push(text.last()) == text);
    }
}

/// A question that holds both a chart phrase and a table phrase asks for a
/// chart.
pub proof fn chart_wins_over_table(text: Seq<char>)
    requires
        any_phrase(lower_of(text), chart_phrases()),
        any_phrase(lower_of(text), table_phrases()),
    ensures
        kind_of(lower_of(text)) == OutputType::Chart,
{
}

/// A question with no hint phrase and no `json` asks for no shape, and comes
/// back with its whitespace runs collapsed and no comma at either end.
pub proof fn plain_question_is_normalized(text: Seq<char>)
    requires
        !any_phrase(lower_of(text), table_phrases()),
        !any_phrase(lower_of(text), chart_phrases()),
        !contains(lower_of(text), "json"@),
    ensures
        cleaned(text, lower_of(text)) == normalize(text),
        kind_of(lower_of(text)) == OutputType::Auto,
        normalized_shape(normalize(text)),
{
    let l = lower_of(text);
    assert forall|p: int| 0 <= p < hint_phrases().len() implies !contains(
        l,
        #[trigger] hint_phrases()[p],
    ) by {
        if p < table_phrases().len() {
            assert(hint_phrases()[p] == table_phrases()[p]);
        } else {
            assert(hint_phrases()[p] == chart_phrases()[p - table_phrases().len()]);
        }
    }
    lemma_strip_nothing(text, l);
    lemma_normalize(text);
}

/// The cleaned question is made of whole characters of the question and
/// spaces, and so is valid UTF-8 text.
pub proof fn cleaned_keeps_whole_chars(text: Seq<char>, lower: Seq<char>)
    ensures
        drawn_from(cleaned(text, lower), text),
        valid_utf8(encode_utf8(cleaned(text, lower))),
{
    let st = stripped(text, lower);
    lemma_strip_drawn(text, lower);
    assert forall|i: int| 0 <= i < text.len() implies text[i] == ' ' || text.contains(
        #[trigger] text[i],
    ) by {}
    lemma_normalize(st);
    let c = cleaned(text, lower);
    assert forall|i: int| 0 <= i < c.len() implies c[i] == ' ' || text.contains(#[trigger] c[i]) by {
        if c[i] != ' ' {
            let k = choose|k: int| 0 <= k < st.len() && st[k] == c[i];
        }
    }
    encode_utf8_valid_utf8(c);
}

/// `idx` places each character of `a` at an equal character of `b`, in
/// increasing positions.
pub open spec fn embeds(a: Seq<char>, b: Seq<char>, idx: Seq<int>) -> bool {
    &&& idx.len() == a.len()
    &&& forall|i: int| 0 <= i < a.len() ==> 0 <= #[trigger] idx[i] < b.len() && a[i] == b[idx[i]]
    &&& forall|i: int, j: int| 0 <= i < j < a.len() ==> #[trigger] idx[i] < #[trigger] idx[j]
}

/// `a` is `b` with some characters left out, the rest in their order.
pub open spec fn subsequence(a: Seq<char>, b: Seq<char>) -> bool {
    exists|idx: Seq<int>| embeds(a, b, idx)
}

/// `s` with each whitespace character written as a space.
pub open spec fn spaced(s: Seq<char>) -> Seq<char> {
    s.map_values(|c: char| if is_ws(c) { ' ' } else { c })
}

proof fn lemma_embeds_compose(a: Seq<char>, b: Seq<char>, c: Seq<char>, i1: Seq<int>, i2: Seq<int>) -> (r: Seq<int>)
    requires
        embeds(a, b, i1),
        embeds(b, c, i2),
    ensures
        embeds(a, c, r),
{
    let r = i1.map_values(|x: int| i2[x]);
    assert forall|i: int, j: int| 0 <= i < j < a.len() implies #[trigger] r[i] < #[trigger] r[j] by {
        assert(i1[i] < i1[j]);
    }
    assert forall|i: int| 0 <= i < a.len() implies 0 <= #[trigger] r[i] < c.len() && a[i] == c[r[i]] by {
        assert(0 <= i1[i] < b.len());
    }
    r
}

proof fn lemma_embeds_spaced(a: Seq<char>, b: Seq<char>, idx: Seq<int>)
    requires
        embeds(a, b, idx),
    ensures
        embeds(spaced(a), spaced(b), idx),
{
    assert forall|i: int| 0 <= i < a.len() implies 0 <= #[trigger] idx[i] < b.len() && spaced(a)[i]
        == spaced(b)[idx[i]] by {
        assert(a[i] == b[idx[i]]);
    }
}

proof fn lemma_identity_embeds(s: Seq<char>) -> (r: Seq<int>)
    ensures
        embeds(s, s, r),
{
    Seq::new(s.len(), |i: int| i)
}

proof fn lemma_strip_embeds(text: Seq<char>, lower: Seq<char>) -> (r: Seq<int>)
    ensures
        embeds(strip_phrases(text, lower), text, r),
    decreases text.len(),
{
    if text.len() == 0 {
        seq![]
    } else {
        let t = text.drop_last();
        let p = lemma_strip_embeds(t, lower);
        let out = strip_phrases(text, lower);
        if covered(lower, hint_phrases(), text.len() - 1) {
            assert forall|i: int| 0 <= i < out.len() implies 0 <= #[trigger] p[i] < text.len()
                && out[i] == text[p[i]] by {
                assert(t[p[i]] == text[p[i]]);
            }
            p
        } else {
            let r = p.push(text.len() - 1);
            assert forall|i: int| 0 <= i < out.len() implies 0 <= #[trigger] r[i] < text.len()
                && out[i] == text[r[i]] by {
                if i < p.len() {
                    assert(t[p[i]] == text[p[i]]);
                }
            }
            assert forall|i: int, j: int| 0 <= i < j < out.len() implies #[trigger] r[i] < #[trigger] r[j] by {
                if j < p.len() {
                    assert(p[i] < p[j]);
                } else {
                    assert(0 <= p[i] < t.len());
                }
            }
            r
        }
    }
}

proof fn lemma_collapse_embeds(s: Seq<char>) -> (r: Seq<int>)
    ensures
        embeds(collapse_ws(s), spaced(s), r),
    decreases s.len(),
{
    if s.len() == 0 {
        seq![]
    } else {
        let n = s.len() as int;
        let t = s.drop_last();
        let q = lemma_collapse_embeds(t);
        lemma_collapse_shape(t);
        let p = collapse_ws(t);
        let c = s.last();
        let out = collapse_ws(s);
        assert forall|k: int| 0 <= k < t.len() implies #[trigger] spaced(t)[k] == spaced(s)[k] by {
            assert(t[k] == s[k]);
        }
        if is_ws(c) {
            q
        } else if n >= 2 && is_ws(s[n - 2]) && p.len() > 0 {
            let r = q.push(n - 2).push(n - 1);
            assert(spaced(s)[n - 2] == ' ');
            assert(spaced(s)[n - 1] == c);
            let last = p.len() - 1;
            assert(p[last] == spaced(t)[q[last]]);
            assert(!is_ws(p.last()));
            assert(q[last] < n - 2);
            assert forall|i: int| 0 <= i < p.len() implies #[trigger] q[i] < n - 2 by {
                if i < last {
                    assert(q[i] < q[last]);
                }
            }
            assert forall|i: int| 0 <= i < out.len() implies 0 <= #[trigger] r[i] < spaced(s).len()
                && out[i] == spaced(s)[r[i]] by {
                if i < p.len() {
                    assert(p[i] == spaced(t)[q[i]]);
                }
            }
            assert forall|i: int, j: int| 0 <= i < j < out.len() implies #[trigger] r[i] < #[trigger] r[j] by {
                if j < p.len() {
                    assert(q[i] < q[j]);
                }
            }
            r
        } else {
            let r = q.push(n - 1);
            assert(spaced(s)[n - 1] == c);
            assert forall|i: int| 0 <= i < out.len() implies 0 <= #[trigger] r[i] < spaced(s).len()
                && out[i] == spaced(s)[r[i]] by {
                if i < p.len() {
                    assert(p[i] == spaced(t)[q[i]]);
                }
            }
            assert forall|i: int, j: int| 0 <= i < j < out.len() implies #[trigger] r[i] < #[trigger] r[j] by {
                if j < p.len() {
                    assert(q[i] < q[j]);
                } else {
                    assert(0 <= q[i] < t.len());
                }
            }
            r
        }
    }
}

proof fn lemma_trim_front_embeds(s: Seq<char>) -> (r: Seq<int>)
    ensures
        embeds(trim_front(s), s, r),
    decreases s.len(),
{
    if s.len() > 0 && is_edge(s[0]) {
        let t = s.drop_first();
        let q = lemma_trim_front_embeds(t);
        let r = q.map_values(|x: int| x + 1);
        let out = trim_front(s);
        assert forall|i: int| 0 <= i < out.len() implies 0 <= #[trigger] r[i] < s.len() && out[i]
            == s[r[i]] by {
            assert(t[q[i]] == s[q[i] + 1]);
        }
        assert forall|i: int, j: int| 0 <= i < j < out.len() implies #[trigger] r[i] < #[trigger] r[j] by {
            assert(q[i] < q[j]);
        }
        r
    } else {
        lemma_identity_embeds(s)
    }
}

proof fn lemma_trim_back_embeds(s: Seq<char>) -> (r: Seq<int>)
    ensures
        embeds(trim_back(s), s, r),
    decreases s.len(),
{
    if s.len() > 0 && is_edge(s.last()) {
        let t = s.drop_last();
        let q = lemma_trim_back_embeds(t);
        let out = trim_back(s);
        assert forall|i: int| 0 <= i < out.len() implies 0 <= #[trigger] q[i] < s.len() && out[i]
            == s[q[i]] by {
            assert(t[q[i]] == s[q[i]]);
        }
        q
    } else {
        lemma_identity_embeds(s)
    }
}

/// The cleaned question keeps the question's characters in their order, none
/// altered, with whitespace written as spaces: it is the question, whitespace
/// made spaces, with some characters left out.
pub proof fn cleaned_is_ordered_subsequence(text: Seq<char>, lower: Seq<char>)
    ensures
        subsequence(cleaned(text, lower), spaced(text)),
{
    let st = stripped(text, lower);
    let i0 = if lower.len() == text.len() {
        lemma_strip_embeds(text, lower)
    } else {
        lemma_identity_embeds(text)
    };
    lemma_embeds_spaced(st, text, i0);
    let c = collapse_ws(st);
    let i1 = lemma_collapse_embeds(st);
    let i01 = lemma_embeds_compose(c, spaced(st), spaced(text), i1, i0);
    let f = trim_front(c);
    let i2 = lemma_trim_front_embeds(c);
    let i012 = lemma_embeds_compose(f, c, spaced(text), i2, i01);
    let b = trim_back(f);
    let i3 = lemma_trim_back_embeds(f);
    let all = lemma_embeds_compose(b, f, spaced(text), i3, i012);
    assert(embeds(cleaned(text, lower), spaced(text), all));
}

} // verus!

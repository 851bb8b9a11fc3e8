//! Action tokens: a suggested question packed into a byte-bounded identifier
//! for a reply button, and read back when the button is pressed.

use vstd::prelude::*;
use vstd::utf8::*;
use crate::text::{
    byte_len, byte_length, chars_of, lemma_encode_concat, lower_of, lowercase, matches_at, push_text,
    string_of,
};

verus! {

broadcast use {encode_utf8_valid_utf8, encode_utf8_decode_utf8};

/// The largest length within `n` at which `bytes` can be cut between two
/// characters.
pub open spec fn fit_len(bytes: Seq<u8>, n: int) -> int
    decreases n,
{
    if n >= bytes.len() {
        bytes.len() as int
    } else if n <= 0 {
        0
    } else if is_char_boundary(bytes, n) {
        n
    } else {
        fit_len(bytes, n - 1)
    }
}

/// The longest prefix of `s` whose UTF-8 form is within `n` bytes.
pub open spec fn fit(s: Seq<char>, n: int) -> Seq<char> {
    decode_utf8(encode_utf8(s).take(fit_len(encode_utf8(s), n)))
}

/// The token for `q`: `prefix` and as much of `q` as fits in `max` bytes;
/// cut again at `max` when the prefix alone is longer.
pub open spec fn token(q: Seq<char>, max: int, prefix: Seq<char>) -> Seq<char> {
    let budget = if byte_len(prefix) <= max {
        max - byte_len(prefix)
    } else {
        0
    };
    let t = prefix + fit(q, budget);
    if byte_len(t) > max {
        fit(t, max)
    } else {
        t
    }
}

pub proof fn lemma_fit(s: Seq<char>, n: int)
    ensures
        0 <= fit_len(encode_utf8(s), n) <= encode_utf8(s).len(),
        n >= 0 ==> fit_len(encode_utf8(s), n) <= n,
        is_char_boundary(encode_utf8(s), fit_len(encode_utf8(s), n)),
        encode_utf8(fit(s, n)) == encode_utf8(s).take(fit_len(encode_utf8(s), n)),
        byte_len(fit(s, n)) == fit_len(encode_utf8(s), n),
    decreases n,
{
    let b = encode_utf8(s);
    if n >= b.len() {
        is_char_boundary_start_end_of_seq(b);
    } else if n <= 0 {
    } else if is_char_boundary(b, n) {
    } else {
        lemma_fit(s, n - 1);
    }
    let l = fit_len(b, n);
    valid_utf8_split(b, l);
    decode_utf8_encode_utf8(b.take(l));
}

/// The longest prefix of `s` within `n` bytes that ends between two
/// characters.
pub fn truncate_utf8(s: &str, n: usize) -> (r: &str)
    ensures
        r@ == fit(s@, n as int),
{
    let total = byte_length(s);
    if total <= n {
        proof {
            assert(encode_utf8(s@).take(total as int) == encode_utf8(s@));
        }
        return s;
    }
    let mut len = n;
    while len > 0 && !s.is_char_boundary(len)
        invariant
            len <= n < total,
            total == encode_utf8(s@).len(),
            fit_len(encode_utf8(s@), n as int) == fit_len(encode_utf8(s@), len as int),
        decreases len,
    {
        len = len - 1;
    }
    let (head, _) = s.split_at(len);
    proof {
        assert(encode_utf8(head@) == encode_utf8(s@).take(len as int));
    }
    head
}

/// The action token for a question: `prefix` and the longest start of the
/// question that keeps the token within `max_bytes`.
pub fn encode_action(question: &str, max_bytes: usize, prefix: &str) -> (r: String)
    ensures
        r@ == token(question@, max_bytes as int, prefix@),
        byte_len(r@) <= max_bytes,
{
    let pl = byte_length(prefix);
    let budget = if pl <= max_bytes {
        max_bytes - pl
    } else {
        0
    };
    let frag = truncate_utf8(question, budget);
    let mut t = String::from_str(prefix);
    push_text(&mut t, frag);
    if byte_length(t.as_str()) > max_bytes {
        proof {
            lemma_fit(t@, max_bytes as int);
        }
        String::from_str(truncate_utf8(t.as_str(), max_bytes))
    } else {
        t
    }
}

/// The prefix of tokens that carry a question.
pub const QUERY_PREFIX: &'static str = "query:";

/// The prefix of tokens keyed by a hash, which nothing here resolves.
pub const HASH_PREFIX: &'static str = "q:";

/// The most bytes an action token may take.
pub const MAX_TOKEN_BYTES: usize = 64;

/// `p` begins `s`.
pub open spec fn starts_with(s: Seq<char>, p: Seq<char>) -> bool {
    p.len() <= s.len() && s.take(p.len() as int) == p
}

/// A question routed to the database: `sql: ` is put in front unless its
/// lower-case form `lower` already begins with `sql:`.
pub open spec fn routed(q: Seq<char>, lower: Seq<char>) -> Seq<char> {
    if starts_with(lower, "sql:"@) {
        q
    } else {
        "sql: "@ + q
    }
}

/// The question a token carries, if it carries one.
pub open spec fn token_question(data: Seq<char>) -> Option<Seq<char>> {
    if starts_with(data, QUERY_PREFIX@) {
        let rest = data.skip(QUERY_PREFIX@.len() as int);
        Some(routed(rest, lower_of(rest)))
    } else {
        None
    }
}

/// What a pressed button asks for.
#[derive(Clone, Debug)]
pub enum ActionQuery {
    /// Run this question.
    Run(String),
    /// A hash-keyed token: there is no store to resolve it.
    Unresolvable,
    /// Not an action token.
    Ignored,
}

fn begins_with(s: &Vec<char>, p: &Vec<char>) -> (r: bool)
    ensures
        r == starts_with(s@, p@),
{
    let r = matches_at(s, p, 0);
    assert(p@.len() <= s@.len() ==> s@.take(p@.len() as int) == s@.subrange(0, p@.len() as int));
    r
}

/// The question routed to the database, given its lower-case form.
pub fn route_question(q: &str, q_lower: &str) -> (r: String)
    ensures
        r@ == routed(q@, q_lower@),
{
    if begins_with(&chars_of(q_lower), &chars_of("sql:")) {
        String::from_str(q)
    } else {
        let mut r = String::from_str("sql: ");
        push_text(&mut r, q);
        r
    }
}

/// Reads a button's token back into a question.
pub fn decode_action(data: &str) -> (r: ActionQuery)
    ensures
        token_question(data@) is Some <==> r is Run,
        r is Run ==> r->Run_0@ == token_question(data@)->0,
        token_question(data@) is None && starts_with(data@, HASH_PREFIX@) <==> r is Unresolvable,
{
    let cs = chars_of(data);
    let qp = chars_of(QUERY_PREFIX);
    if begins_with(&cs, &qp) {
        let mut rest: Vec<char> = Vec::new();
        let mut i: usize = qp.len();
        while i < cs.len()
            invariant
                qp@.len() <= i <= cs@.len(),
                rest@ == cs@.subrange(qp@.len() as int, i as int),
            decreases cs.len() - i,
        {
            rest.push(cs[i]);
            assert(cs@.subrange(qp@.len() as int, i + 1) =~= rest@);
            i = i + 1;
        }
        assert(rest@ == data@.skip(QUERY_PREFIX@.len() as int));
        let q = string_of(&rest);
        let lowered = lowercase(q.as_str());
        ActionQuery::Run(route_question(q.as_str(), lowered.as_str()))
    } else if begins_with(&cs, &chars_of(HASH_PREFIX)) {
        ActionQuery::Unresolvable
    } else {
        ActionQuery::Ignored
    }
}

/// The part of `q` that its token within `max` bytes carries.
pub open spec fn fragment(q: Seq<char>, max: int) -> Seq<char> {
    fit(q, max - byte_len(QUERY_PREFIX@))
}

/// Reading a question's token back gives the start of the question, whole
/// characters within the byte budget, with `sql: ` put in front unless it is
/// already there.
pub proof fn token_round_trip(q: Seq<char>, max: int)
    requires
        byte_len(QUERY_PREFIX@) <= max,
    ensures
        token_question(token(q, max, QUERY_PREFIX@)) == Some(
            routed(fragment(q, max), lower_of(fragment(q, max))),
        ),
        routed(fragment(q, max), lower_of(fragment(q, max))) == fragment(q, max)
            || routed(fragment(q, max), lower_of(fragment(q, max))) == "sql: "@ + fragment(q, max),
        encode_utf8(fragment(q, max)) == encode_utf8(q).take(byte_len(fragment(q, max)) as int),
        byte_len(fragment(q, max)) <= byte_len(q),
        byte_len(fragment(q, max)) <= max - byte_len(QUERY_PREFIX@),
{
    let p = QUERY_PREFIX@;
    let f = fragment(q, max);
    lemma_fit(q, max - byte_len(p));
    let t = p + f;
    lemma_encode_concat(p, f);
    assert(token(q, max, p) == t);
    assert(t.take(p.len() as int) == p);
    assert(t.skip(p.len() as int) == f);
}

/// What a reply button shows: the question, or its first 37 characters and
/// `...` when it is longer than 40.
pub open spec fn label(q: Seq<char>) -> Seq<char> {
    if q.len() > 40 {
        q.take(37) + "..."@
    } else {
        q
    }
}

pub fn button_label(question: &str) -> (r: String)
    ensures
        r@ == label(question@),
{
    let cs = chars_of(question);
    if cs.len() > 40 {
        let mut head: Vec<char> = Vec::new();
        let mut i: usize = 0;
        while i < 37
            invariant
                i <= 37 < cs@.len(),
                head@ == cs@.take(i as int),
            decreases 37 - i,
        {
            head.push(cs[i]);
            assert(cs@.take(i + 1) == cs@.take(i as int).push(cs@[i as int]));
            i = i + 1;
        }
        let mut r = string_of(&head);
        push_text(&mut r, "...");
        r
    } else {
        String::from_str(question)
    }
}

/// A reply button: the text shown and the token sent back.
#[derive(Clone, Debug)]
pub struct ActionButton {
    pub label: String,
    pub token: String,
}

/// The most suggestion buttons a reply carries.
pub const MAX_BUTTONS: usize = 6;

/// One button for each of the first six questions, in order.
pub fn suggestion_buttons(questions: &Vec<String>) -> (r: Vec<ActionButton>)
    ensures
        r@.len() == if questions@.len() < MAX_BUTTONS {
            questions@.len()
        } else {
            MAX_BUTTONS as nat
        },
        forall|i: int|
            0 <= i < r@.len() ==> (#[trigger] r@[i]).label@ == label(questions@[i]@)
                && r@[i].token@ == token(questions@[i]@, MAX_TOKEN_BYTES as int, QUERY_PREFIX@),
{
    let n = if questions.len() < MAX_BUTTONS {
        questions.len()
    } else {
        MAX_BUTTONS
    };
    let mut r: Vec<ActionButton> = Vec::new();
    let mut i: usize = 0;
    while i < n
        invariant
            i <= n <= questions@.len(),
            r@.len() == i,
            forall|k: int|
                0 <= k < i ==> (#[trigger] r@[k]).label@ == label(questions@[k]@)
                    && r@[k].token@ == token(questions@[k]@, MAX_TOKEN_BYTES as int, QUERY_PREFIX@),
        decreases n - i,
    {
        let q = &questions[i];
        r.push(ActionButton {
            label: button_label(q.as_str()),
            token: encode_action(q.as_str(), MAX_TOKEN_BYTES, QUERY_PREFIX),
        });
        i = i + 1;
    }
    r
}

} // verus!

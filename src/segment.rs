//! Splitting a long reply into chunks that fit the transport, at line
//! boundaries.

use vstd::prelude::*;
use vstd::utf8::encode_utf8;
use crate::text::{
    byte_len, byte_length, lemma_encode_concat,
    chars_of, join_nl, lines_of, no_newline, push_text, split_lines, string_of, string_views,
    views,
};

verus! {

/// Whether a line has any character.
pub open spec fn is_filled(l: Seq<char>) -> bool {
    l.len() > 0
}

/// The lines that have characters, in order.
pub open spec fn filled_lines(lines: Seq<Seq<char>>) -> Seq<Seq<char>> {
    lines.filter(|l: Seq<char>| is_filled(l))
}

/// After packing `lines`: the chunks closed, the chunk under way (empty when
/// none is), and the lines that went into chunks. A chunk is closed before a
/// line that would take it over `soft` bytes with the line feed between
/// them. A blank line that would begin a chunk is dropped, so that no chunk is
/// empty.
pub open spec fn pack_state(lines: Seq<Seq<char>>, soft: int) -> (
    Seq<Seq<char>>,
    Seq<char>,
    Seq<Seq<char>>,
)
    decreases lines.len(),
{
    if lines.len() == 0 {
        (seq![], seq![], seq![])
    } else {
        let st = pack_state(lines.drop_last(), soft);
        let l = lines.last();
        let close = st.1.len() > 0 && byte_len(st.1) + byte_len(l) + 1 > soft;
        let done = if close {
            st.0.push(st.1)
        } else {
            st.0
        };
        let base = if close {
            seq![]
        } else {
            st.1
        };
        if base.len() > 0 {
            (done, base + seq!['\n'] + l, st.2.push(l))
        } else if l.len() > 0 {
            (done, l, st.2.push(l))
        } else {
            (done, base, st.2)
        }
    }
}

/// The chunks that `lines` are packed into.
pub open spec fn pack(lines: Seq<Seq<char>>, soft: int) -> Seq<Seq<char>> {
    let st = pack_state(lines, soft);
    if st.1.len() > 0 {
        st.0.push(st.1)
    } else {
        st.0
    }
}

/// The lines that packing keeps: all but the blank lines that would begin a
/// chunk.
pub open spec fn packed_lines(lines: Seq<Seq<char>>, soft: int) -> Seq<Seq<char>> {
    pack_state(lines, soft).2
}

/// The whole text when it is within `hard` bytes, else its lines packed into
/// chunks of at most `soft` bytes.
pub open spec fn segments(text: Seq<char>, soft: int, hard: int) -> Seq<Seq<char>> {
    if byte_len(text) <= hard {
        seq![text]
    } else {
        pack(lines_of(text), soft)
    }
}

/// A chunk fits when it is within `soft` bytes or is one line.
pub open spec fn fits(c: Seq<char>, soft: int) -> bool {
    byte_len(c) <= soft || no_newline(c)
}

proof fn lemma_newline_len()
    ensures
        byte_len(seq!['\n']) == 1,
{
    reveal_with_fuel(encode_utf8, 2);
    assert(seq!['\n'].drop_first().len() == 0);
}

proof fn lemma_pack_state(lines: Seq<Seq<char>>, soft: int)
    requires
        forall|k: int| 0 <= k < lines.len() ==> no_newline(#[trigger] lines[k]),
    ensures
        forall|k: int|
            0 <= k < pack_state(lines, soft).0.len() ==> #[trigger] pack_state(lines, soft).0[k].len()
                > 0 && fits(pack_state(lines, soft).0[k], soft),
        fits(pack_state(lines, soft).1, soft),
        packed_lines(lines, soft).len() == 0 <==> pack(lines, soft).len() == 0,
        join_nl(pack(lines, soft)) == join_nl(packed_lines(lines, soft)),
        filled_lines(packed_lines(lines, soft)) == filled_lines(lines),
    decreases lines.len(),
{
    broadcast use Seq::lemma_filter_push;

    if lines.len() > 0 {
        let prev = lines.drop_last();
        lemma_pack_state(prev, soft);
        let st = pack_state(prev, soft);
        let l = lines.last();
        assert(no_newline(lines[lines.len() - 1]));
        assert(prev.push(l) == lines);
        assert(lines.drop_last() == prev);
        let close = st.1.len() > 0 && byte_len(st.1) + byte_len(l) + 1 > soft;
        let done = if close {
            st.0.push(st.1)
        } else {
            st.0
        };
        let base = if close {
            seq![]
        } else {
            st.1
        };
        assert(st.2.push(l).drop_last() == st.2);
        assert(filled_lines(lines) == if is_filled(l) {
            filled_lines(prev).push(l)
        } else {
            filled_lines(prev)
        });
        assert(filled_lines(st.2.push(l)) == if is_filled(l) {
            filled_lines(st.2).push(l)
        } else {
            filled_lines(st.2)
        });
        if close {
            assert(done.drop_last() == st.0);
            assert(join_nl(done) == join_nl(st.2));
        }
        // `done` followed by `base` joins to what the lines so far join to.
        assert(join_nl(if base.len() > 0 { done.push(base) } else { done }) == join_nl(st.2));
        assert(st.2.len() == 0 <==> (done.len() == 0 && base.len() == 0));
        if base.len() > 0 {
            let cur = base + seq!['\n'] + l;
            lemma_encode_concat(base, seq!['\n']);
            lemma_encode_concat(base + seq!['\n'], l);
            lemma_newline_len();
            assert(fits(cur, soft));
            assert(done.push(cur).drop_last() == done);
            assert(done.push(base).drop_last() == done);
            if done.len() == 0 {
                assert(done.push(cur) == seq![cur]);
                assert(done.push(base) == seq![base]);
            } else {
                assert(join_nl(done.push(cur)) == join_nl(done) + seq!['\n'] + cur);
                assert(join_nl(done.push(base)) == join_nl(done) + seq!['\n'] + base);
            }
            assert(join_nl(done.push(cur)) == join_nl(st.2) + seq!['\n'] + l);
        } else if l.len() > 0 {
            assert(done.push(l).drop_last() == done);
            if done.len() == 0 {
                assert(done.push(l) == seq![l]);
                assert(st.2.push(l) == seq![l]);
            }
        }
    }
}

/// Each chunk holds a character and is within the soft limit or is a single
/// line; the chunks joined by line feeds are the kept lines joined the same
/// way; and the kept lines are the given ones less some blank lines.
pub proof fn packed_chunks_fit_and_rejoin(lines: Seq<Seq<char>>, soft: int)
    requires
        forall|k: int| 0 <= k < lines.len() ==> no_newline(#[trigger] lines[k]),
    ensures
        forall|k: int|
            0 <= k < pack(lines, soft).len() ==> #[trigger] pack(lines, soft)[k].len() > 0 && fits(
                pack(lines, soft)[k],
                soft,
            ),
        join_nl(pack(lines, soft)) == join_nl(packed_lines(lines, soft)),
        filled_lines(packed_lines(lines, soft)) == filled_lines(lines),
{
    lemma_pack_state(lines, soft);
    let st = pack_state(lines, soft);
    if st.1.len() > 0 {
        assert forall|k: int| 0 <= k < pack(lines, soft).len() implies #[trigger] pack(
            lines,
            soft,
        )[k].len() > 0 && fits(pack(lines, soft)[k], soft) by {
            if k < st.0.len() {
                assert(pack(lines, soft)[k] == st.0[k]);
            }
        }
    }
}

/// `a + b + 1 > limit`, without overflow.
fn exceeds(a: usize, b: usize, limit: usize) -> (r: bool)
    ensures
        r == (a + b + 1 > limit),
{
    match a.checked_add(b) {
        Some(x) => match x.checked_add(1) {
            Some(y) => y > limit,
            None => true,
        },
        None => true,
    }
}

/// The text as one chunk when it is within `hard_limit` bytes; else its
/// lines, in order, packed greedily into chunks that stay within
/// `soft_limit` bytes, but for a single longer line, which stands alone. A
/// blank line that would begin a chunk is dropped, so no chunk is empty.
pub fn segment(text: &str, soft_limit: usize, hard_limit: usize) -> (r: Vec<String>)
    ensures
        string_views(r@) == segments(text@, soft_limit as int, hard_limit as int),
        text@.len() > 0 ==> forall|k: int| 0 <= k < r@.len() ==> (#[trigger] r@[k])@.len() > 0,
        byte_len(text@) > hard_limit ==> forall|k: int|
            0 <= k < r@.len() ==> fits(#[trigger] r@[k]@, soft_limit as int),
        byte_len(text@) > hard_limit ==> join_nl(string_views(r@)) == join_nl(
            packed_lines(lines_of(text@), soft_limit as int),
        ),
        byte_len(text@) > hard_limit ==> filled_lines(
            packed_lines(lines_of(text@), soft_limit as int),
        ) == filled_lines(lines_of(text@)),
{
    if byte_length(text) <= hard_limit {
        let mut one: Vec<String> = Vec::new();
        one.push(String::from_str(text));
        assert(string_views(one@) =~= seq![text@]);
        return one;
    }
    let lines = split_lines(&chars_of(text));
    let ghost ls = views(lines@);
    let ghost soft = soft_limit as int;
    let mut chunks: Vec<String> = Vec::new();
    let mut cur = String::new();
    let mut i: usize = 0;
    while i < lines.len()
        invariant
            i <= lines.len(),
            ls == views(lines@),
            soft == soft_limit as int,
            string_views(chunks@) == pack_state(ls.take(i as int), soft).0,
            cur@ == pack_state(ls.take(i as int), soft).1,
        decreases lines.len() - i,
    {
        assert(ls.take(i + 1).drop_last() == ls.take(i as int));
        assert(ls.take(i + 1).last() == lines@[i as int]@);
        let line = string_of(&lines[i]);
        let close = !cur.as_str().is_empty() && exceeds(
            byte_length(cur.as_str()),
            byte_length(line.as_str()),
            soft_limit,
        );
        if close {
            chunks.push(cur);
            cur = String::new();
        }
        if !cur.as_str().is_empty() {
            cur.push('\n');
            push_text(&mut cur, line.as_str());
        } else if !line.as_str().is_empty() {
            cur = line;
        }
        i = i + 1;
    }
    assert(ls.take(lines.len() as int) == ls);
    if !cur.as_str().is_empty() {
        chunks.push(cur);
    }
    proof {
        packed_chunks_fit_and_rejoin(ls, soft);
        assert(string_views(chunks@) =~= pack(ls, soft));
        assert forall|k: int| 0 <= k < chunks@.len() implies (#[trigger] chunks@[k])@.len() > 0
            && fits(chunks@[k]@, soft) by {
            assert(chunks@[k]@ == pack(ls, soft)[k]);
        }
    }
    chunks
}

} // verus!

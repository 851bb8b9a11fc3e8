//! CSV export of result rows.

use vstd::prelude::*;
use crate::api::{Field, Row, Scalar};
use crate::text::{byte_len, byte_length, chars_of, push_text, same_text, string_of};

verus! {

/// The value under `key` in the first field that has it.
pub open spec fn lookup(fields: Seq<Field>, key: Seq<char>) -> Option<Scalar>
    decreases fields.len(),
{
    if fields.len() == 0 {
        None
    } else if fields[0].key@ == key {
        Some(fields[0].value)
    } else {
        lookup(fields.drop_first(), key)
    }
}

/// `s` with each double quote doubled.
pub open spec fn double_quotes(s: Seq<char>) -> Seq<char>
    decreases s.len(),
{
    if s.len() == 0 {
        seq![]
    } else {
        double_quotes(s.drop_last()) + if s.last() == '"' {
            seq!['"', '"']
        } else {
            seq![s.last()]
        }
    }
}

/// A CSV cell: a number as it is, a string quoted, anything else or a
/// missing value empty.
pub open spec fn cell(v: Option<Scalar>) -> Seq<char> {
    match v {
        Some(Scalar::Number(t)) => t@,
        Some(Scalar::Text(s)) => seq!['"'] + double_quotes(s@) + seq!['"'],
        _ => seq![],
    }
}

/// `parts` with a comma between each two.
pub open spec fn join_comma(parts: Seq<Seq<char>>) -> Seq<char>
    decreases parts.len(),
{
    if parts.len() == 0 {
        seq![]
    } else if parts.len() == 1 {
        parts[0]
    } else {
        join_comma(parts.drop_last()) + seq![','] + parts.last()
    }
}

pub open spec fn keys_of(fields: Seq<Field>) -> Seq<Seq<char>> {
    fields.map_values(|f: Field| f.key@)
}

/// The cells of a row, one per header key.
pub open spec fn row_cells(keys: Seq<Seq<char>>, fields: Seq<Field>) -> Seq<Seq<char>> {
    keys.map_values(|k: Seq<char>| cell(lookup(fields, k)))
}

/// The lines for `rows` under `keys`; rows that are not objects give none.
pub open spec fn rows_text(keys: Seq<Seq<char>>, rows: Seq<Row>) -> Seq<char>
    decreases rows.len(),
{
    if rows.len() == 0 {
        seq![]
    } else {
        rows_text(keys, rows.drop_last()) + match rows.last() {
            Row::Object(fields) => join_comma(row_cells(keys, fields@)) + seq!['\n'],
            Row::Other => seq![],
        }
    }
}

/// The CSV text: a header of the first row's keys, then one line per object
/// row; empty when there are no rows or the first is not an object.
pub open spec fn csv(rows: Seq<Row>) -> Seq<char> {
    if rows.len() == 0 {
        seq![]
    } else {
        match rows[0] {
            Row::Object(first) => join_comma(keys_of(first@)) + seq!['\n'] + rows_text(
                keys_of(first@),
                rows,
            ),
            Row::Other => seq![],
        }
    }
}

fn find_field<'a>(fields: &'a Vec<Field>, key: &str) -> (r: Option<&'a Scalar>)
    ensures
        match r {
            Some(v) => lookup(fields@, key@) == Some(*v),
            None => lookup(fields@, key@) is None,
        },
{
    let mut i: usize = 0;
    assert(fields@.skip(0) == fields@);
    while i < fields.len()
        invariant
            i <= fields.len(),
            lookup(fields@, key@) == lookup(fields@.skip(i as int), key@),
        decreases fields.len() - i,
    {
        assert(fields@.skip(i as int).drop_first() == fields@.skip(i + 1));
        assert(fields@.skip(i as int)[0] == fields@[i as int]);
        if same_text(fields[i].key.as_str(), key) {
            return Some(&fields[i].value);
        }
        i = i + 1;
    }
    None
}

fn push_quoted(out: &mut String, s: &str)
    ensures
        final(out)@ == old(out)@ + seq!['"'] + double_quotes(s@) + seq!['"'],
{
    out.push('"');
    let cs = chars_of(s);
    let ghost start = out@;
    let mut i: usize = 0;
    while i < cs.len()
        invariant
            i <= cs.len(),
            cs@ == s@,
            out@ == start + double_quotes(cs@.take(i as int)),
        decreases cs.len() - i,
    {
        assert(cs@.take(i + 1).drop_last() == cs@.take(i as int));
        if cs[i] == '"' {
            out.push('"');
            out.push('"');
        } else {
            out.push(cs[i]);
        }
        i = i + 1;
    }
    assert(cs@.take(cs.len() as int) == cs@);
    out.push('"');
}

fn push_cell(out: &mut String, v: Option<&Scalar>)
    ensures
        final(out)@ == old(out)@ + cell(match v {
            Some(x) => Some(*x),
            None => None,
        }),
{
    match v {
        Some(Scalar::Number(t)) => push_text(out, t.as_str()),
        Some(Scalar::Text(s)) => push_quoted(out, s.as_str()),
        _ => {},
    }
}

fn push_header(out: &mut String, first: &Vec<Field>)
    ensures
        final(out)@ == old(out)@ + join_comma(keys_of(first@)),
{
    let mut k: usize = 0;
    while k < first.len()
        invariant
            k <= first.len(),
            out@ == old(out)@ + join_comma(keys_of(first@).take(k as int)),
        decreases first.len() - k,
    {
        let ghost p = keys_of(first@).take(k + 1);
        assert(p.drop_last() == keys_of(first@).take(k as int));
        if k > 0 {
            out.push(',');
        }
        push_text(out, first[k].key.as_str());
        k = k + 1;
    }
    assert(keys_of(first@).take(first.len() as int) == keys_of(first@));
}

fn push_row(out: &mut String, first: &Vec<Field>, fields: &Vec<Field>)
    ensures
        final(out)@ == old(out)@ + join_comma(row_cells(keys_of(first@), fields@)) + seq!['\n'],
{
    let ghost cells = row_cells(keys_of(first@), fields@);
    let mut k: usize = 0;
    while k < first.len()
        invariant
            k <= first.len(),
            cells == row_cells(keys_of(first@), fields@),
            out@ == old(out)@ + join_comma(cells.take(k as int)),
        decreases first.len() - k,
    {
        let ghost p = cells.take(k + 1);
        assert(p.drop_last() == cells.take(k as int));
        if k > 0 {
            out.push(',');
        }
        let v = find_field(fields, first[k].key.as_str());
        push_cell(out, v);
        k = k + 1;
    }
    assert(cells.take(first.len() as int) == cells);
    out.push('\n');
}

/// The rows as CSV text.
pub fn format_as_csv(data: &Vec<Row>) -> (r: String)
    ensures
        r@ == csv(data@),
{
    let mut result = String::new();
    if data.len() == 0 {
        return result;
    }
    if let Row::Object(first) = &data[0] {
        push_header(&mut result, first);
        result.push('\n');
        let ghost head = result@;
        let mut i: usize = 0;
        while i < data.len()
            invariant
                i <= data.len(),
                data@[0] == Row::Object(*first),
                result@ == head + rows_text(keys_of(first@), data@.take(i as int)),
            decreases data.len() - i,
        {
            assert(data@.take(i + 1).drop_last() == data@.take(i as int));
            if let Row::Object(fields) = &data[i] {
                push_row(&mut result, first, fields);
            }
            i = i + 1;
        }
        assert(data@.take(data.len() as int) == data@);
    }
    result
}

/// `n` copies of `c`.
pub open spec fn repeat(c: char, n: nat) -> Seq<char> {
    Seq::new(n, |i: int| c)
}

/// `s` padded with spaces to 20 characters, as the `{:20}` format does.
pub open spec fn pad20(s: Seq<char>) -> Seq<char> {
    if s.len() < 20 {
        s + repeat(' ', (20 - s.len()) as nat)
    } else {
        s
    }
}

/// A table cell's value: a number or string as it is, anything else or a
/// missing value `N/A`.
pub open spec fn table_value(v: Option<Scalar>) -> Seq<char> {
    match v {
        Some(Scalar::Number(t)) => t@,
        Some(Scalar::Text(s)) => s@,
        _ => "N/A"@,
    }
}

/// A value over 18 bytes cut to its first 15 characters and `…`.
pub open spec fn clip(v: Seq<char>) -> Seq<char> {
    if byte_len(v) > 18 {
        v.take(if v.len() < 15 { v.len() as int } else { 15 }) + seq!['…']
    } else {
        v
    }
}

pub open spec fn column(v: Seq<char>) -> Seq<char> {
    pad20(v) + " | "@
}

pub open spec fn header_columns(keys: Seq<Seq<char>>) -> Seq<char>
    decreases keys.len(),
{
    if keys.len() == 0 {
        seq![]
    } else {
        header_columns(keys.drop_last()) + column(keys.last())
    }
}

pub open spec fn row_columns(keys: Seq<Seq<char>>, fields: Seq<Field>) -> Seq<char>
    decreases keys.len(),
{
    if keys.len() == 0 {
        seq![]
    } else {
        row_columns(keys.drop_last(), fields) + column(clip(table_value(lookup(fields, keys.last()))))
    }
}

pub open spec fn table_rows(keys: Seq<Seq<char>>, rows: Seq<Row>) -> Seq<char>
    decreases rows.len(),
{
    if rows.len() == 0 {
        seq![]
    } else {
        table_rows(keys, rows.drop_last()) + match rows.last() {
            Row::Object(fields) => row_columns(keys, fields@) + seq!['\n'],
            Row::Other => seq![],
        }
    }
}

/// A fixed-width text table in a code block: the first row's keys, a rule,
/// then one line per object row; empty when there are no rows or the first
/// is not an object.
pub open spec fn text_table(rows: Seq<Row>) -> Seq<char> {
    if rows.len() == 0 {
        seq![]
    } else {
        match rows[0] {
            Row::Object(first) => "```\n"@ + header_columns(keys_of(first@)) + seq!['\n']
                + repeat('-', 23 * first@.len()) + seq!['\n'] + table_rows(keys_of(first@), rows)
                + "```\n"@,
            Row::Other => seq![],
        }
    }
}

fn push_column(out: &mut String, v: &str)
    ensures
        final(out)@ == old(out)@ + column(v@),
{
    push_text(out, v);
    let n = chars_of(v).len();
    let ghost start = out@;
    let mut k: usize = n;
    while k < 20
        invariant
            n <= k <= 20 || (n > 20 && k == n),
            n == v@.len(),
            out@ == start + repeat(' ', (k - n) as nat),
        decreases 20 - k,
    {
        out.push(' ');
        assert(repeat(' ', (k + 1 - n) as nat) == repeat(' ', (k - n) as nat).push(' '));
        k = k + 1;
    }
    proof {
        if n >= 20 {
            assert(repeat(' ', 0) == Seq::<char>::empty());
        }
    }
    assert(out@ == old(out)@ + pad20(v@));
    push_text(out, " | ");
}

fn clipped(v: &str) -> (r: String)
    ensures
        r@ == clip(v@),
{
    if byte_length(v) > 18 {
        let cs = chars_of(v);
        let n = if cs.len() < 15 {
            cs.len()
        } else {
            15
        };
        let mut head: Vec<char> = Vec::new();
        let mut i: usize = 0;
        while i < n
            invariant
                i <= n <= cs@.len(),
                head@ == cs@.take(i as int),
            decreases n - i,
        {
            head.push(cs[i]);
            assert(cs@.take(i + 1) == cs@.take(i as int).push(cs@[i as int]));
            i = i + 1;
        }
        head.push('…');
        string_of(&head)
    } else {
        String::from_str(v)
    }
}

fn push_table_row(out: &mut String, first: &Vec<Field>, fields: &Vec<Field>)
    ensures
        final(out)@ == old(out)@ + row_columns(keys_of(first@), fields@) + seq!['\n'],
{
    let ghost keys = keys_of(first@);
    let mut k: usize = 0;
    while k < first.len()
        invariant
            k <= first.len(),
            keys == keys_of(first@),
            out@ == old(out)@ + row_columns(keys.take(k as int), fields@),
        decreases first.len() - k,
    {
        assert(keys.take(k + 1).drop_last() == keys.take(k as int));
        let value = match find_field(fields, first[k].key.as_str()) {
            Some(Scalar::Number(t)) => clipped(t.as_str()),
            Some(Scalar::Text(s)) => clipped(s.as_str()),
            _ => clipped("N/A"),
        };
        push_column(out, value.as_str());
        k = k + 1;
    }
    assert(keys.take(first.len() as int) == keys);
    out.push('\n');
}

/// The rows as a fixed-width text table.
pub fn format_data_as_table(data: &Vec<Row>) -> (r: String)
    ensures
        r@ == text_table(data@),
{
    let mut result = String::new();
    if data.len() == 0 {
        return result;
    }
    if let Row::Object(first) = &data[0] {
        push_text(&mut result, "```\n");
        let ghost keys = keys_of(first@);
        let ghost s0 = result@;
        let mut k: usize = 0;
        while k < first.len()
            invariant
                k <= first.len(),
                keys == keys_of(first@),
                result@ == s0 + header_columns(keys.take(k as int)),
            decreases first.len() - k,
        {
            assert(keys.take(k + 1).drop_last() == keys.take(k as int));
            push_column(&mut result, first[k].key.as_str());
            k = k + 1;
        }
        assert(keys.take(first.len() as int) == keys);
        result.push('\n');
        let ghost s1 = result@;
        let mut d: usize = 0;
        while d < first.len()
            invariant
                d <= first.len(),
                result@ == s1 + repeat('-', 23 * d as nat),
            decreases first.len() - d,
        {
            let mut j: usize = 0;
            while j < 23
                invariant
                    j <= 23,
                    d < first.len(),
                    result@ == s1 + repeat('-', (23 * d + j) as nat),
                decreases 23 - j,
            {
                result.push('-');
                assert(repeat('-', (23 * d + j + 1) as nat) == repeat('-', (23 * d + j) as nat).push('-'));
                j = j + 1;
            }
            d = d + 1;
        }
        result.push('\n');
        let ghost head = result@;
        let mut i: usize = 0;
        while i < data.len()
            invariant
                i <= data.len(),
                data@[0] == Row::Object(*first),
                result@ == head + table_rows(keys_of(first@), data@.take(i as int)),
            decreases data.len() - i,
        {
            assert(data@.take(i + 1).drop_last() == data@.take(i as int));
            if let Row::Object(fields) = &data[i] {
                push_table_row(&mut result, first, fields);
            }
            i = i + 1;
        }
        assert(data@.take(data.len() as int) == data@);
        push_text(&mut result, "```\n");
    }
    result
}

} // verus!

//! `about` and `db:show`: keys and values with dots between them, under headings.
use vstd::prelude::*;
use crate::report::{capped, push_capped, push_line};
use crate::table::{
    compact_table, format_compact_table, is_ascii_border, is_border, parse_ascii_table, table_of,
};
use crate::text::{
    chars_of, contains_char, decimal, find, first_from, join, joined, lemma_first_from, line_seq,
    lines, lower, lowered, texts, to_ascii_lowercase, to_decimal, trim, trim_matches,
    trim_start_matches, trimmed, trimmed_front, trimmed_of, Pattern,
};
use crate::text_laws::{law_trimmed_ends, law_trimmed_kept, law_trimmed_stands_in};

verus! {

/// How many rows of a table are shown.
pub const MAX_GENERIC_ROWS: usize = 40;

/// How many keys and values are shown.
pub const MAX_KV_LINES: usize = 80;

/// Whether `c` is an ASCII letter or digit.
pub open spec fn is_alphanumeric(c: char) -> bool {
    'a' <= c <= 'z' || 'A' <= c <= 'Z' || '0' <= c <= '9'
}

/// `c` as a key holds it: an underscore stands for all but letters and digits.
pub open spec fn key_char(c: char) -> char {
    if is_alphanumeric(c) {
        c
    } else {
        '_'
    }
}

/// `s` as a key holds it, character by character.
pub open spec fn key_chars(s: Seq<char>) -> Seq<char> {
    s.map_values(|c: char| key_char(c))
}

/// The form in which keys and headings are shown: lower case, underscores for
/// all but letters and digits, none of them at either end.
pub open spec fn normalized(key: Seq<char>) -> Seq<char> {
    trimmed_of(key_chars(lowered(trimmed(key))), Pattern::Char('_'))
}

/// Turns a key or a heading into the form in which it is shown.
pub fn normalize_key(key: &str) -> (r: String)
    ensures
        r@ == normalized(key@),
{
    let v = chars_of(to_ascii_lowercase(trim(key)).as_str());
    let mut out = String::new();
    let mut i: usize = 0;
    while i < v.len()
        invariant
            i <= v@.len(),
            out@ == key_chars(v@.take(i as int)),
        decreases v@.len() - i,
    {
        let c = v[i];
        if ('a' <= c && c <= 'z') || ('A' <= c && c <= 'Z') || ('0' <= c && c <= '9') {
            out.push(c);
        } else {
            out.push('_');
        }
        i += 1;
        assert(out@ =~= key_chars(v@.take(i as int)));
    }
    assert(v@.take(i as int) =~= v@);
    trim_matches(out.as_str(), Pattern::Char('_')).to_owned()
}

/// A key and its value.
#[verifier::ext_equal]
pub struct KeyValue {
    pub key: Seq<char>,
    pub value: Seq<char>,
}

/// The key and the value in `line`, with three dots or more between them.
pub open spec fn dotted(line: Seq<char>) -> Option<KeyValue> {
    match first_from(line, "..."@, 0) {
        Some(i) => {
            let key = trimmed(line.take(i));
            let value = trimmed(trimmed_front(line.skip(i), Pattern::Char('.')));
            if key.len() == 0 || value.len() == 0 {
                None
            } else {
                Some(KeyValue { key, value })
            }
        },
        None => None,
    }
}

/// Reads the key and the value in `line`, if it holds them.
pub fn split_dotted_key_value(line: &str) -> (r: Option<(String, String)>)
    ensures
        match r {
            Some((key, value)) => dotted(line@) == Some(KeyValue { key: key@, value: value@ }),
            None => dotted(line@) is None,
        },
{
    proof {
        lemma_first_from(line@, "..."@, 0);
    }
    match find(line, "...") {
        Some(dots) => {
            let n: usize = line.unicode_len();
            let key = trim(line.substring_char(0, dots));
            let value = trim(
                trim_start_matches(line.substring_char(dots, n), Pattern::Char('.')),
            );
            assert(line@.take(dots as int) =~= line@.subrange(0, dots as int));
            assert(line@.skip(dots as int) =~= line@.subrange(dots as int, n as int));
            if key.is_empty() || value.is_empty() {
                None
            } else {
                Some((key.to_owned(), value.to_owned()))
            }
        },
        None => None,
    }
}

/// The heading that was read last, and the rows so far.
#[verifier::ext_equal]
pub struct Fields {
    pub section: Seq<char>,
    pub rows: Seq<Seq<char>>,
}

/// A key and its value as they are shown under the heading `section`.
pub open spec fn field_row(section: Seq<char>, key: Seq<char>, value: Seq<char>) -> Seq<char> {
    if section.len() == 0 {
        key + "="@ + value
    } else {
        section + "."@ + key + "="@ + value
    }
}

/// What `line` adds to `f`. A key with its value is a row under the current
/// heading. Any other line without a `|` is the next heading.
pub open spec fn with_line(f: Fields, line: Seq<char>) -> Fields {
    let t = trimmed(line);
    if t.len() == 0 || is_border(t) {
        f
    } else {
        match dotted(t) {
            Some(kv) => Fields {
                section: f.section,
                rows: f.rows.push(field_row(f.section, normalized(kv.key), kv.value)),
            },
            None => if t.contains('|') {
                f
            } else {
                Fields { section: normalized(t), rows: f.rows }
            },
        }
    }
}

/// What `lines` add up to.
pub open spec fn fields_of(lines: Seq<Seq<char>>) -> Fields
    decreases lines.len(),
{
    if lines.len() == 0 {
        Fields { section: Seq::empty(), rows: Seq::empty() }
    } else {
        with_line(fields_of(lines.drop_last()), lines.last())
    }
}

/// The keys and values in `output`.
pub open spec fn key_value_rows(output: Seq<char>) -> Seq<Seq<char>> {
    fields_of(line_seq(output)).rows
}

/// Reads the keys and values in `output`, each with its heading before it.
pub fn collect_key_value_rows(output: &str) -> (r: Vec<String>)
    ensures
        texts(r@) == key_value_rows(output@),
{
    let ls = lines(output);
    let ghost all = texts(ls@);
    let mut rows: Vec<String> = Vec::new();
    let mut section = String::new();
    let mut i: usize = 0;
    assert(texts(rows@) =~= fields_of(all.take(0)).rows);
    while i < ls.len()
        invariant
            i <= ls@.len(),
            all == texts(ls@),
            texts(rows@) == fields_of(all.take(i as int)).rows,
            section@ == fields_of(all.take(i as int)).section,
        decreases ls@.len() - i,
    {
        assert(all.take(i + 1).drop_last() =~= all.take(i as int));
        let line = trim(ls[i].as_str());
        if !line.is_empty() && !is_ascii_border(line) {
            match split_dotted_key_value(line) {
                Some((key, value)) => {
                    let key = normalize_key(key.as_str());
                    let mut row = String::new();
                    if !section.as_str().is_empty() {
                        row.append(section.as_str());
                        row.append(".");
                    }
                    row.append(key.as_str());
                    row.append("=");
                    row.append(value.as_str());
                    assert(row@ =~= field_row(section@, key@, value@));
                    push_line(&mut rows, row);
                },
                None => {
                    if !contains_char(line, '|') {
                        section = normalize_key(line);
                    }
                },
            }
        }
        i += 1;
    }
    assert(all.take(i as int) =~= all);
    rows
}

/// The lines that stand for keys and values: how many there are, and up to a
/// limit of them.
pub open spec fn field_lines(label: Seq<char>, rows: Seq<Seq<char>>) -> Seq<Seq<char>> {
    seq![label + ": "@ + decimal(rows.len()) + " fields"@] + capped(
        rows,
        MAX_KV_LINES as nat,
        "... +"@,
        " more fields"@,
    )
}

/// Writes the lines that stand for keys and values.
fn push_fields(label: &str, rows: &Vec<String>) -> (r: Vec<String>)
    ensures
        texts(r@) == field_lines(label@, texts(rows@)),
{
    let mut out: Vec<String> = Vec::new();
    let mut head = label.to_owned();
    head.append(": ");
    head.append(to_decimal(rows.len()).as_str());
    head.append(" fields");
    push_line(&mut out, head);
    push_capped(&mut out, rows.as_slice(), MAX_KV_LINES, "... +", " more fields");
    assert(texts(out@) =~= field_lines(label@, texts(rows@)));
    out
}

/// What stands for output without keys and values: its table, or else the output
/// as it is.
pub open spec fn table_or_raw(label: Seq<char>, output: Seq<char>) -> Seq<char> {
    match table_of(output) {
        Some(t) => compact_table(label, t, MAX_GENERIC_ROWS as nat),
        None => output,
    }
}

/// What stands for output of keys and values.
pub open spec fn key_value_output(label: Seq<char>, output: Seq<char>) -> Seq<char> {
    let rows = key_value_rows(output);
    if rows.len() == 0 {
        table_or_raw(label, output)
    } else {
        joined(field_lines(label, rows), "\n"@)
    }
}

/// Summarises output of keys and values.
pub fn filter_key_value_output(label: &str, output: &str) -> (r: String)
    ensures
        r@ == key_value_output(label@, output@),
{
    let rows = collect_key_value_rows(output);
    if rows.len() == 0 {
        match parse_ascii_table(output) {
            Some(table) => format_compact_table(label, &table, MAX_GENERIC_ROWS),
            None => output.to_owned(),
        }
    } else {
        join(push_fields(label, &rows).as_slice(), "\n")
    }
}

/// The lines that stand for a table below keys and values.
pub open spec fn table_lines(output: Seq<char>) -> Seq<Seq<char>> {
    match table_of(output) {
        Some(t) => seq![Seq::empty(), compact_table("tables"@, t, MAX_GENERIC_ROWS as nat)],
        None => Seq::empty(),
    }
}

/// What stands for the output of `db:show`: its keys and values, and below them
/// its table.
pub open spec fn db_show(output: Seq<char>) -> Seq<char> {
    let rows = key_value_rows(output);
    if rows.len() == 0 {
        table_or_raw("db:show"@, output)
    } else {
        joined(field_lines("db:show"@, rows) + table_lines(output), "\n"@)
    }
}

/// Summarises the output of `db:show`.
pub fn filter_db_show(output: &str) -> (r: String)
    ensures
        r@ == db_show(output@),
{
    let fields = collect_key_value_rows(output);
    let table = parse_ascii_table(output);
    if fields.len() == 0 {
        return match table {
            Some(table) => format_compact_table("db:show", &table, MAX_GENERIC_ROWS),
            None => output.to_owned(),
        };
    }
    let mut out = push_fields("db:show", &fields);
    let ghost head = texts(out@);
    if let Some(table) = table {
        push_line(&mut out, String::new());
        push_line(&mut out, format_compact_table("tables", &table, MAX_GENERIC_ROWS));
    }
    assert(texts(out@) =~= head + table_lines(output@));
    join(out.as_slice(), "\n")
}

/// Whether `c` may stand in a key: a lower-case letter, a digit or an underscore.
pub open spec fn is_shown_key_char(c: char) -> bool {
    'a' <= c <= 'z' || '0' <= c <= '9' || c == '_'
}

/// Keys hold lower-case letters, digits and underscores, with no underscore at
/// either end; and a key in this form is left as it is.
pub proof fn law_normalized(key: Seq<char>)
    ensures
        forall|i: int|
            0 <= i < normalized(key).len() ==> is_shown_key_char(#[trigger] normalized(key)[i]),
        normalized(key).len() > 0 ==> normalized(key).first() != '_' && normalized(key).last()
            != '_',
        normalized(normalized(key)) == normalized(key),
{
    let all = key_chars(lowered(trimmed(key)));
    let n = normalized(key);
    law_trimmed_ends(all, Pattern::Char('_'));
    let from = law_trimmed_stands_in(all, Pattern::Char('_'));
    assert forall|i: int| 0 <= i < n.len() implies is_shown_key_char(#[trigger] n[i]) by {
        assert(n[i] == all[from + i]);
        let c = trimmed(key)[from + i];
        assert(all[from + i] == key_char(lower(c)));
    }
    if n.len() > 0 {
        assert(is_shown_key_char(n[0]) && is_shown_key_char(n[n.len() - 1]));
    }
    law_trimmed_kept(n, Pattern::WhiteSpace);
    assert forall|i: int| 0 <= i < n.len() implies key_char(lower(#[trigger] n[i])) == n[i] by {
        assert(is_shown_key_char(n[i]));
    }
    assert(key_chars(lowered(n)) =~= n);
    law_trimmed_kept(n, Pattern::Char('_'));
}

/// Blank lines, and the borders and rows of a table that hold no key, add
/// nothing.
pub proof fn law_table_lines_add_no_field(f: Fields, line: Seq<char>)
    requires
        trimmed(line).len() == 0 || is_border(trimmed(line)) || (trimmed(line).contains('|')
            && dotted(trimmed(line)) is None),
    ensures
        with_line(f, line) == f,
{
}

} // verus!

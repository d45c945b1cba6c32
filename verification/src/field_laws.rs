//! What `about` and `db:show` promise of their summaries.
use vstd::prelude::*;
use crate::drawing::{drawn_field, law_drawn_field_is_read_back, Pad};
use crate::fields::{
    db_show, dotted, field_lines, fields_of, is_alphanumeric, key_chars, key_value_output,
    key_value_rows, normalized, table_lines, KeyValue,
};
use crate::report::{capped, law_capped};
use crate::table::{compact_table, is_border, is_border_char, table_of};
use crate::text::{
    decimal, first_from, joined, lemma_first_from, line_seq, lower, lowered, occurs_at, occurs_in,
    trimmed, trimmed_front, trimmed_of, Pattern,
};
use crate::text_laws::{law_trim_idempotent, law_trimmed, law_trimmed_ends, spaces};

verus! {

/// A key or a heading is shown from its first letter or digit to its last: these
/// in lower case, and an underscore for each other character between them.
pub proof fn law_shown_key(key: Seq<char>) -> (r: (int, int))
    ensures
        0 <= r.0 <= r.1 <= trimmed(key).len(),
        normalized(key).len() == r.1 - r.0,
        forall|i: int|
            0 <= i < normalized(key).len() ==> #[trigger] normalized(key)[i] == {
                let c = trimmed(key)[r.0 + i];
                if 'a' <= c <= 'z' || 'A' <= c <= 'Z' || '0' <= c <= '9' {
                    lower(c)
                } else {
                    '_'
                }
            },
        forall|j: int|
            0 <= j < r.0 || r.1 <= j < trimmed(key).len() ==> {
                let c = #[trigger] trimmed(key)[j];
                !('a' <= c <= 'z' || 'A' <= c <= 'Z' || '0' <= c <= '9')
            },
        normalized(key).len() > 0 ==> normalized(key).first() != '_' && normalized(key).last()
            != '_',
{
    let t = trimmed(key);
    let all = key_chars(lowered(t));
    let p = Pattern::Char('_');
    law_trimmed_ends(all, p);
    assert forall|j: int| 0 <= j < t.len() implies #[trigger] all[j] == (if is_alphanumeric(t[j]) {
        lower(t[j])
    } else {
        '_'
    }) by {
        assert(lowered(t)[j] == lower(t[j]));
    }
    let from = lemma_underscores(all);
    let end = from + normalized(key).len();
    assert forall|j: int| 0 <= j < from || end <= j < t.len() implies {
        let c = #[trigger] t[j];
        !('a' <= c <= 'z' || 'A' <= c <= 'Z' || '0' <= c <= '9')
    } by {
        assert(all[j] == '_');
    }
    (from, end)
}

/// What is trimmed off either end is underscores.
proof fn lemma_underscores(all: Seq<char>) -> (from: int)
    ensures
        0 <= from,
        from + trimmed_of(all, Pattern::Char('_')).len() <= all.len(),
        trimmed_of(all, Pattern::Char('_')) == all.subrange(
            from,
            from + trimmed_of(all, Pattern::Char('_')).len(),
        ),
        forall|j: int|
            0 <= j < from || from + trimmed_of(all, Pattern::Char('_')).len() <= j
                < all.len() ==> #[trigger] all[j] == '_',
{
    let p = Pattern::Char('_');
    let a = first_other(all, 0);
    if a == all.len() {
        assert(all =~= all + Seq::empty() + Seq::empty());
        law_trimmed(all, Seq::empty(), Seq::empty(), p);
        0
    } else {
        let b = last_other(all, a);
        let t = all.subrange(a, b + 1);
        assert(all =~= all.take(a) + t + all.skip(b + 1));
        assert forall|i: int| 0 <= i < all.take(a).len() implies p.accepts(
            #[trigger] all.take(a)[i],
        ) by {
            assert(all[i] == '_');
        }
        assert forall|i: int| 0 <= i < all.skip(b + 1).len() implies p.accepts(
            #[trigger] all.skip(b + 1)[i],
        ) by {
            assert(all[b + 1 + i] == '_');
        }
        law_trimmed(all.take(a), t, all.skip(b + 1), p);
        a
    }
}

proof fn first_other(s: Seq<char>, from: int) -> (a: int)
    requires
        0 <= from <= s.len(),
    ensures
        from <= a <= s.len(),
        forall|j: int| from <= j < a ==> #[trigger] s[j] == '_',
        a < s.len() ==> s[a] != '_',
    decreases s.len() - from,
{
    if from < s.len() && s[from] == '_' {
        first_other(s, from + 1)
    } else {
        from
    }
}

proof fn last_other(s: Seq<char>, a: int) -> (b: int)
    requires
        0 <= a < s.len(),
        s[a] != '_',
    ensures
        a <= b < s.len(),
        s[b] != '_',
        forall|j: int| b < j < s.len() ==> #[trigger] s[j] == '_',
    decreases s.len(),
{
    if s.last() != '_' {
        s.len() - 1
    } else {
        let d = s.drop_last();
        let b = last_other(d, a);
        assert forall|j: int| b < j < s.len() implies #[trigger] s[j] == '_' by {
            if j < d.len() {
                assert(d[j] == '_');
            }
        }
        b
    }
}

/// A line holds a key and a value exactly when three dots stand in it with
/// something before them and something after all of the dots. The key is what
/// stands before the first three dots, and the value all that stands after them
/// and the dots that follow, both without white space at either end.
pub proof fn law_dotted(line: Seq<char>, at: int, end: int)
    requires
        0 <= at,
        at + 3 <= end <= line.len(),
        forall|j: int| at <= j < end ==> #[trigger] line[j] == '.',
        end < line.len() ==> line[end] != '.',
        forall|j: int| 0 <= j < at ==> !occurs_at(line, seq!['.', '.', '.'], j),
    ensures
        dotted(line) == (if trimmed(line.take(at)).len() == 0 || trimmed(line.skip(end)).len()
            == 0 {
            None
        } else {
            Some(KeyValue { key: trimmed(line.take(at)), value: trimmed(line.skip(end)) })
        }),
{
    reveal_strlit("...");
    let pat = "..."@;
    assert(pat =~= seq!['.', '.', '.']);
    assert(line.subrange(at, at + 3) =~= pat);
    assert(occurs_at(line, pat, at));
    lemma_first_from(line, pat, 0);
    let i = first_from(line, pat, 0)->0;
    assert(i == at);
    let p = Pattern::Char('.');
    let dots = line.subrange(at, end);
    let rest = line.skip(end);
    assert(line.skip(at) =~= dots + rest);
    lemma_dots_off(dots, rest);
}

proof fn lemma_dots_off(dots: Seq<char>, rest: Seq<char>)
    requires
        forall|i: int| 0 <= i < dots.len() ==> #[trigger] dots[i] == '.',
        rest.len() > 0 ==> rest[0] != '.',
    ensures
        trimmed_front(dots + rest, Pattern::Char('.')) == rest,
    decreases dots.len(),
{
    if dots.len() == 0 {
        assert(dots + rest =~= rest);
    } else {
        let d = dots.drop_first();
        assert forall|i: int| 0 <= i < d.len() implies #[trigger] d[i] == '.' by {
            assert(d[i] == dots[i + 1]);
        }
        lemma_dots_off(d, rest);
        assert(dots[0] == '.');
        assert((dots + rest).drop_first() =~= d + rest);
    }
}

/// A line without three dots in a row holds no key.
pub proof fn law_undotted(line: Seq<char>)
    requires
        !occurs_in(line, seq!['.', '.', '.']),
    ensures
        dotted(line) is None,
{
    reveal_strlit("...");
    assert("..."@ =~= seq!['.', '.', '.']);
    lemma_first_from(line, "..."@, 0);
}

/// Whether `line` holds a key and a value.
pub open spec fn is_field(line: Seq<char>) -> bool {
    dotted(trimmed(line)) is Some
}

/// Whether `line` is a heading: it is not blank, no border, holds no key, and no
/// `|` stands in it.
pub open spec fn is_heading(line: Seq<char>) -> bool {
    &&& trimmed(line).len() > 0
    &&& !is_border(trimmed(line))
    &&& dotted(trimmed(line)) is None
    &&& forall|i: int| 0 <= i < trimmed(line).len() ==> #[trigger] trimmed(line)[i] != '|'
}

/// A line with a key is neither blank nor a border.
proof fn lemma_field_is_no_border(t: Seq<char>)
    requires
        dotted(t) is Some,
    ensures
        t.len() > 0,
        !is_border(t),
{
    reveal_strlit("...");
    lemma_first_from(t, "..."@, 0);
    let i = first_from(t, "..."@, 0)->0;
    assert(t.subrange(i, i + 3)[0] == '.');
    assert(t[i] == '.');
    if is_border(t) {
        assert(is_border_char(t[i]));
    }
}

proof fn lemma_fields_are_counted(lines: Seq<Seq<char>>)
    ensures
        fields_of(lines).rows.len() == lines.filter(|l: Seq<char>| is_field(l)).len(),
    decreases lines.len(),
{
    reveal(Seq::filter);
    if lines.len() > 0 {
        lemma_fields_are_counted(lines.drop_last());
        if is_field(lines.last()) {
            lemma_field_is_no_border(trimmed(lines.last()));
        }
    }
}

/// Every line with a key and a value gives one row, and no other line gives any.
pub proof fn law_fields_are_counted(output: Seq<char>)
    ensures
        key_value_rows(output).len() == line_seq(output).filter(
            |l: Seq<char>| dotted(trimmed(l)) is Some,
        ).len(),
{
    let keep = |l: Seq<char>| dotted(trimmed(l)) is Some;
    assert(keep =~= |l: Seq<char>| is_field(l));
    lemma_fields_are_counted(line_seq(output));
}

proof fn lemma_rows_grow(lines: Seq<Seq<char>>, n: int)
    requires
        0 <= n <= lines.len(),
    ensures
        fields_of(lines.take(n)).rows.len() <= fields_of(lines).rows.len(),
        forall|i: int|
            0 <= i < fields_of(lines.take(n)).rows.len() ==> fields_of(lines).rows[i]
                == #[trigger] fields_of(lines.take(n)).rows[i],
    decreases lines.len(),
{
    if n == lines.len() {
        assert(lines.take(n) =~= lines);
    } else {
        let d = lines.drop_last();
        lemma_rows_grow(d, n);
        assert(d.take(n) =~= lines.take(n));
        assert forall|i: int| 0 <= i < fields_of(d).rows.len() implies fields_of(lines).rows[i]
            == #[trigger] fields_of(d).rows[i] by {}
    }
}

/// The heading under which a line stands.
proof fn lemma_section(lines: Seq<Seq<char>>, h: int, k: int)
    requires
        0 <= h < k <= lines.len(),
        is_heading(lines[h]),
        forall|j: int| h < j < k ==> !is_heading(#[trigger] lines[j]),
    ensures
        fields_of(lines.take(k)).section == normalized(trimmed(lines[h])),
    decreases k - h,
{
    let all = lines.take(k);
    assert(all.drop_last() =~= lines.take(k - 1));
    assert(all.last() == lines[k - 1]);
    let t = trimmed(lines[k - 1]);
    if k - 1 > h {
        lemma_section(lines, h, k - 1);
        assert(!is_heading(lines[k - 1]));
        if t.len() > 0 && !is_border(t) && dotted(t) is None {
            let i = choose|i: int| 0 <= i < t.len() && #[trigger] t[i] == '|';
            assert(t.contains('|'));
        }
    } else {
        assert(!t.contains('|'));
    }
}

proof fn lemma_no_section(lines: Seq<Seq<char>>, k: int)
    requires
        0 <= k <= lines.len(),
        forall|j: int| 0 <= j < k ==> !is_heading(#[trigger] lines[j]),
    ensures
        fields_of(lines.take(k)).section.len() == 0,
    decreases k,
{
    if k > 0 {
        let all = lines.take(k);
        assert(all.drop_last() =~= lines.take(k - 1));
        assert(all.last() == lines[k - 1]);
        lemma_no_section(lines, k - 1);
        assert(!is_heading(lines[k - 1]));
        let t = trimmed(lines[k - 1]);
        if t.len() > 0 && !is_border(t) && dotted(t) is None {
            let i = choose|i: int| 0 <= i < t.len() && #[trigger] t[i] == '|';
            assert(t.contains('|'));
        }
    }
}

/// The row that a line with a key gives stands after those of the lines before
/// it, and is its heading, a dot, its key, `=` and its value: the last heading
/// before it, the key as it is shown, and the whole value.
pub proof fn law_field_below_heading(
    output: Seq<char>,
    lines: Seq<Seq<char>>,
    h: int,
    k: int,
    kv: KeyValue,
)
    requires
        lines == line_seq(output),
        0 <= h < k < lines.len(),
        is_heading(lines[h]),
        forall|j: int| h < j < k ==> !is_heading(#[trigger] lines[j]),
        dotted(trimmed(lines[k])) == Some(kv),
    ensures
        ({
            let at = lines.take(k).filter(|l: Seq<char>| is_field(l)).len();
            &&& at < key_value_rows(output).len()
            &&& key_value_rows(output)[at as int] == (if normalized(trimmed(lines[h])).len() == 0 {
                normalized(kv.key) + "="@ + kv.value
            } else {
                normalized(trimmed(lines[h])) + "."@ + normalized(kv.key) + "="@ + kv.value
            })
        }),
{
    let f = fields_of(lines.take(k));
    lemma_section(lines, h, k);
    lemma_field_is_no_border(trimmed(lines[k]));
    lemma_fields_are_counted(lines.take(k));
    assert(lines.take(k + 1).drop_last() =~= lines.take(k));
    assert(lines.take(k + 1).last() == lines[k]);
    let g = fields_of(lines.take(k + 1));
    assert(g.rows.len() == f.rows.len() + 1);
    lemma_rows_grow(lines, k + 1);
    assert(fields_of(lines).rows[f.rows.len() as int] == g.rows[f.rows.len() as int]);
}

/// The row that a line with a key gives before any heading is its key, `=` and
/// its value.
pub proof fn law_field_without_heading(
    output: Seq<char>,
    lines: Seq<Seq<char>>,
    k: int,
    kv: KeyValue,
)
    requires
        lines == line_seq(output),
        0 <= k < lines.len(),
        forall|j: int| 0 <= j < k ==> !is_heading(#[trigger] lines[j]),
        dotted(trimmed(lines[k])) == Some(kv),
    ensures
        ({
            let at = lines.take(k).filter(|l: Seq<char>| is_field(l)).len();
            &&& at < key_value_rows(output).len()
            &&& key_value_rows(output)[at as int] == normalized(kv.key) + "="@ + kv.value
        }),
{
    let f = fields_of(lines.take(k));
    lemma_no_section(lines, k);
    lemma_field_is_no_border(trimmed(lines[k]));
    lemma_fields_are_counted(lines.take(k));
    assert(lines.take(k + 1).drop_last() =~= lines.take(k));
    assert(lines.take(k + 1).last() == lines[k]);
    let g = fields_of(lines.take(k + 1));
    assert(g.rows.len() == f.rows.len() + 1);
    lemma_rows_grow(lines, k + 1);
    assert(fields_of(lines).rows[f.rows.len() as int] == g.rows[f.rows.len() as int]);
}

/// Lines that draw a heading and below it a key and a value, with any spaces around them, add one
/// row: the heading, a dot and the key, both as keys are shown, `=`, and the whole
/// value as it was drawn.
pub proof fn law_drawn_field_is_shown(
    before: Seq<char>,
    output: Seq<char>,
    heading: Seq<char>,
    key: Seq<char>,
    dots: nat,
    pad: Pad,
    value: Seq<char>,
    around: Pad,
)
    requires
        dots >= 3,
        key.len() > 0,
        value.len() > 0,
        pad.0 > 0 || key.last() != '.',
        pad.1 > 0 || value.first() != '.',
        trimmed(key) == key,
        trimmed(value) == value,
        !occurs_in(key, "..."@),
        trimmed(heading).len() > 0,
        !is_border(trimmed(heading)),
        !occurs_in(trimmed(heading), "..."@),
        !trimmed(heading).contains('|'),
        normalized(heading).len() > 0,
        line_seq(output) == line_seq(before).push(heading).push(
            spaces(around.0) + drawn_field(key, dots, pad, value) + spaces(around.1),
        ),
    ensures
        key_value_rows(output) == key_value_rows(before).push(
            normalized(heading) + "."@ + normalized(key) + "="@ + value,
        ),
{
    let above = line_seq(before);
    let field = drawn_field(key, dots, pad, value);
    let line = spaces(around.0) + field + spaces(around.1);
    let p = Pattern::WhiteSpace;
    law_trimmed_ends(key, p);
    law_trimmed_ends(value, p);
    assert(field.first() == key.first());
    assert(field.last() == value.last());
    law_trimmed(spaces(around.0), field, spaces(around.1), p);
    law_drawn_field_is_read_back(key, dots, pad, value);
    lemma_field_is_no_border(field);
    lemma_first_from(trimmed(heading), "..."@, 0);
    law_trim_idempotent(heading, p);
    let one = above.push(heading);
    let two = one.push(line);
    assert(one.drop_last() =~= above);
    assert(two.drop_last() =~= one);
    assert(fields_of(one).section == normalized(heading));
    assert(fields_of(one).rows == fields_of(above).rows);
    assert(fields_of(two).rows =~= fields_of(above).rows.push(
        normalized(heading) + "."@ + normalized(key) + "="@ + value,
    ));
}

/// The lines on keys and values.
proof fn lemma_field_lines(label: Seq<char>, rows: Seq<Seq<char>>)
    ensures
        ({
            let shown = field_lines(label, rows);
            &&& shown.len() == 1 + (if rows.len() <= 80 {
                rows.len()
            } else {
                81
            })
            &&& shown[0] == label + ": "@ + decimal(rows.len()) + " fields"@
            &&& forall|i: int| 0 <= i < rows.len() && i < 80 ==> shown[i + 1] == #[trigger] rows[i]
            &&& rows.len() > 80 ==> shown[81] == "... +"@ + decimal((rows.len() - 80) as nat)
                + " more fields"@
        }),
{
    let shown = field_lines(label, rows);
    law_capped(rows, 80, "... +"@, " more fields"@);
    let c = capped(rows, 80, "... +"@, " more fields"@);
    assert forall|i: int| 0 <= i < rows.len() && i < 80 implies shown[i + 1]
        == #[trigger] rows[i] by {
        assert(shown[i + 1] == c[i]);
        if rows.len() > 80 {
            assert(c.drop_last()[i] == c[i]);
        }
    }
    if rows.len() > 80 {
        assert(shown[81] == c[80]);
        assert(c.last() == c[80]);
    }
}

/// Output with keys and values is shown as their number and the first eighty of
/// them, in order. Where some are left out, the last line counts them. Output
/// without any is shown as its table, up to forty rows of it, or kept as it is
/// where it holds none.
pub proof fn law_fields_are_shown(label: Seq<char>, output: Seq<char>) -> (shown: Seq<Seq<char>>)
    ensures
        key_value_rows(output).len() == 0 ==> key_value_output(label, output) == (match table_of(
            output,
        ) {
            Some(t) => compact_table(label, t, 40),
            None => output,
        }),
        key_value_rows(output).len() > 0 ==> {
            let rows = key_value_rows(output);
            &&& key_value_output(label, output) == joined(shown, "\n"@)
            &&& shown.len() == 1 + (if rows.len() <= 80 {
                rows.len()
            } else {
                81
            })
            &&& shown[0] == label + ": "@ + decimal(rows.len()) + " fields"@
            &&& forall|i: int| 0 <= i < rows.len() && i < 80 ==> shown[i + 1] == #[trigger] rows[i]
            &&& rows.len() > 80 ==> shown[81] == "... +"@ + decimal((rows.len() - 80) as nat)
                + " more fields"@
        },
{
    lemma_field_lines(label, key_value_rows(output));
    field_lines(label, key_value_rows(output))
}

/// Of a database, the number of keys and values and the first eighty of them are
/// shown in order, whether or not there is a table. A table adds, at the end, an
/// empty line and what stands for the table, up to forty rows of it. Output
/// without keys and values is shown as its table, or kept as it is where it holds
/// none.
pub proof fn law_database_is_shown(output: Seq<char>) -> (shown: Seq<Seq<char>>)
    ensures
        key_value_rows(output).len() == 0 ==> db_show(output) == (match table_of(output) {
            Some(t) => compact_table("db:show"@, t, 40),
            None => output,
        }),
        key_value_rows(output).len() > 0 ==> {
            let rows = key_value_rows(output);
            let n: nat = 1 + (if rows.len() <= 80 {
                rows.len()
            } else {
                81
            });
            &&& db_show(output) == joined(shown, "\n"@)
            &&& shown[0] == "db:show"@ + ": "@ + decimal(rows.len()) + " fields"@
            &&& forall|i: int| 0 <= i < rows.len() && i < 80 ==> shown[i + 1] == #[trigger] rows[i]
            &&& rows.len() > 80 ==> shown[81] == "... +"@ + decimal((rows.len() - 80) as nat)
                + " more fields"@
            &&& match table_of(output) {
                Some(t) => {
                    &&& shown.len() == n + 2
                    &&& shown[n as int].len() == 0
                    &&& shown[n as int + 1] == compact_table("tables"@, t, 40)
                },
                None => shown.len() == n,
            }
        },
{
    let rows = key_value_rows(output);
    let head = field_lines("db:show"@, rows);
    let shown = head + table_lines(output);
    lemma_field_lines("db:show"@, rows);
    assert forall|i: int| 0 <= i < rows.len() && i < 80 implies shown[i + 1]
        == #[trigger] rows[i] by {
        assert(shown[i + 1] == head[i + 1]);
    }
    shown
}

} // verus!

//! Summaries are short, however long the output is.
use vstd::prelude::*;
use crate::ansi::stripped;
use crate::fields::{
    db_show, dotted, field_lines, field_row, fields_of, key_value_output, key_value_rows,
    law_normalized, normalized, table_lines, MAX_GENERIC_ROWS, MAX_KV_LINES,
};
use crate::filter::{is_recognised, summary};
use crate::migrations::{
    indented, is_name_word, latest, line_status, migrate_status, migration_columns, migration_head,
    migration_lines, migration_name, migrations_of, name_words, pending_lines, ran_lines,
    row_status, table_migrations, text_migrations, MigrationColumns, Migrations, Status,
    MAX_LATEST_RAN, MAX_MIGRATION_ROWS,
};
use crate::report::{capped, law_capped};
use crate::routes::{
    all_dots, counts_note, entry_notes, lines_of, methods_of, route_columns, route_head, route_list,
    route_summary_lines, summary_of, table_routes, text_routes, without_dots, Route, RouteColumns,
    MAX_ACTION_CHARS, MAX_DETAIL_CHARS, MAX_ROUTE_ROWS,
};
use crate::table::{
    cell_or_empty, cell_seq, compact_table_lines, row_inner, row_seq, separators, table_of, tabbed,
    Grid,
};
use crate::tally::{entries_of, law_tally, tally};
use crate::text::{
    decimal, first_from, joined, lemma_first_from, line_seq, pieces, split_seq, trimmed,
    trimmed_front, trimmed_of, truncated, word_seq, Pattern,
};
use crate::text_laws::{
    is_word, law_decimal, law_join_then_split, law_lines, law_trimmed_stands_in, law_words,
    lemma_joined_nested, lemma_trimmed_front,
};

verus! {

/// Whether `s` holds no line feed.
pub open spec fn is_flat(s: Seq<char>) -> bool {
    forall|i: int| 0 <= i < s.len() ==> s[i] != '\n'
}

/// Whether none of `parts` holds a line feed.
pub open spec fn all_flat(parts: Seq<Seq<char>>) -> bool {
    forall|i: int| 0 <= i < parts.len() ==> is_flat(#[trigger] parts[i])
}

/// How many lines `s` takes when it is printed.
pub open spec fn line_count(s: Seq<char>) -> nat {
    split_seq(s, Pattern::Char('\n')).len()
}

proof fn lemma_flat_decimal(n: nat)
    ensures
        is_flat(decimal(n)),
{
    law_decimal(n);
}

proof fn lemma_flat_joined(parts: Seq<Seq<char>>, sep: Seq<char>)
    requires
        all_flat(parts),
        is_flat(sep),
    ensures
        is_flat(joined(parts, sep)),
    decreases parts.len(),
{
    if parts.len() > 1 {
        let d = parts.drop_last();
        assert forall|i: int| 0 <= i < d.len() implies is_flat(#[trigger] d[i]) by {
            assert(d[i] == parts[i]);
        }
        lemma_flat_joined(d, sep);
        assert(is_flat(parts[parts.len() - 1]));
    } else if parts.len() == 1 {
        assert(is_flat(parts[0]));
    }
}

proof fn lemma_flat_trimmed(s: Seq<char>, p: Pattern)
    requires
        is_flat(s),
    ensures
        is_flat(trimmed_of(s, p)),
{
    let from = law_trimmed_stands_in(s, p);
}

proof fn lemma_flat_pieces(s: Seq<char>, cuts: Seq<bool>)
    requires
        is_flat(s),
    ensures
        pieces(s, cuts).len() > 0,
        all_flat(pieces(s, cuts)),
    decreases s.len(),
{
    if s.len() > 0 {
        let before = pieces(s.drop_last(), cuts.drop_last());
        lemma_flat_pieces(s.drop_last(), cuts.drop_last());
        assert(is_flat(before[before.len() - 1]));
        assert forall|i: int| 0 <= i < pieces(s, cuts).len() implies is_flat(
            #[trigger] pieces(s, cuts)[i],
        ) by {
            if i < before.len() {
                assert(is_flat(before[i]));
            }
        }
    }
}

proof fn lemma_flat_words(s: Seq<char>)
    ensures
        all_flat(word_seq(s)),
{
    law_words(s);
    assert forall|i: int| 0 <= i < word_seq(s).len() implies is_flat(#[trigger] word_seq(s)[i]) by {
        assert(is_word(word_seq(s)[i]));
    }
}

proof fn lemma_flat_lines(s: Seq<char>)
    ensures
        all_flat(line_seq(s)),
{
    law_lines(s);
}

proof fn lemma_flat_truncated(s: Seq<char>, max: nat)
    requires
        is_flat(s),
    ensures
        is_flat(truncated(s, max)),
{
    reveal_strlit("...");
}

proof fn lemma_flat_normalized(s: Seq<char>)
    ensures
        is_flat(normalized(s)),
{
    law_normalized(s);
}

proof fn lemma_flat_capped(items: Seq<Seq<char>>, max: nat, before: Seq<char>, after: Seq<char>)
    requires
        all_flat(items),
        is_flat(before),
        is_flat(after),
    ensures
        all_flat(capped(items, max, before, after)),
{
    if items.len() > max {
        lemma_flat_decimal((items.len() - max) as nat);
    }
    let c = capped(items, max, before, after);
    assert forall|i: int| 0 <= i < c.len() implies is_flat(#[trigger] c[i]) by {
        if i < items.len() && i < max {
            assert(is_flat(items[i]));
        }
    }
}

/// Lines without line feeds take, joined, as many lines as they are.
proof fn lemma_line_count(lines: Seq<Seq<char>>)
    requires
        lines.len() > 0,
        all_flat(lines),
    ensures
        line_count(joined(lines, "\n"@)) == lines.len(),
{
    reveal_strlit("\n");
    assert("\n"@ =~= seq!['\n']);
    assert forall|i: int, j: int|
        0 <= i < lines.len() && 0 <= j < lines[i].len() implies #[trigger] lines[i][j] != '\n' by {
        assert(is_flat(lines[i]));
    }
    law_join_then_split(lines, '\n', Pattern::Char('\n'));
}

/// Whether no cell of a table holds a line feed.
spec fn is_flat_grid(t: Grid) -> bool {
    &&& all_flat(t.headers)
    &&& forall|i: int| 0 <= i < t.rows.len() ==> all_flat(#[trigger] t.rows[i])
}

proof fn lemma_flat_cells(line: Seq<char>)
    requires
        is_flat(line),
    ensures
        all_flat(cell_seq(line)),
{
    let inner = row_inner(line);
    let raw = pieces(inner, separators(inner));
    lemma_flat_trimmed(line, Pattern::WhiteSpace);
    lemma_flat_trimmed(trimmed(line), Pattern::Char('|'));
    lemma_flat_pieces(inner, separators(inner));
    assert forall|i: int| 0 <= i < cell_seq(line).len() implies is_flat(
        #[trigger] cell_seq(line)[i],
    ) by {
        assert(is_flat(raw[i]));
        lemma_flat_trimmed(raw[i], Pattern::WhiteSpace);
    }
}

proof fn lemma_flat_rows(lines: Seq<Seq<char>>)
    requires
        all_flat(lines),
    ensures
        forall|i: int| 0 <= i < row_seq(lines).len() ==> all_flat(#[trigger] row_seq(lines)[i]),
    decreases lines.len(),
{
    if lines.len() > 0 {
        let d = lines.drop_last();
        assert forall|i: int| 0 <= i < d.len() implies is_flat(#[trigger] d[i]) by {
            assert(d[i] == lines[i]);
        }
        lemma_flat_rows(d);
        assert(is_flat(lines[lines.len() - 1]));
        lemma_flat_trimmed(lines.last(), Pattern::WhiteSpace);
        lemma_flat_cells(trimmed(lines.last()));
        assert forall|i: int| 0 <= i < row_seq(lines).len() implies all_flat(
            #[trigger] row_seq(lines)[i],
        ) by {
            if i < row_seq(d).len() {
                assert(all_flat(row_seq(d)[i]));
            }
        }
    }
}

proof fn lemma_flat_table(output: Seq<char>)
    ensures
        table_of(output) matches Some(t) ==> is_flat_grid(t),
{
    let rows = row_seq(line_seq(output));
    lemma_flat_lines(output);
    lemma_flat_rows(line_seq(output));
    if rows.len() >= 2 {
        let t = table_of(output)->0;
        assert(all_flat(rows[0]));
        assert forall|i: int| 0 <= i < t.rows.len() implies all_flat(#[trigger] t.rows[i]) by {
            assert(all_flat(rows[i + 1]));
        }
    }
}

proof fn lemma_flat_cell(row: Seq<Seq<char>>, idx: Option<int>)
    requires
        all_flat(row),
    ensures
        is_flat(cell_or_empty(row, idx)),
{
    if let Some(i) = idx {
        if 0 <= i < row.len() {
            assert(is_flat(row[i]));
            lemma_flat_trimmed(row[i], Pattern::WhiteSpace);
        }
    }
}

/// Whether neither the methods nor the lines of `routes` hold a line feed.
spec fn are_flat_routes(routes: Seq<Route>) -> bool {
    forall|i: int|
        0 <= i < routes.len() ==> is_flat((#[trigger] routes[i]).method) && is_flat(routes[i].line)
}

proof fn lemma_flat_table_routes(rows: Seq<Seq<Seq<char>>>, c: RouteColumns)
    requires
        forall|i: int| 0 <= i < rows.len() ==> all_flat(#[trigger] rows[i]),
    ensures
        are_flat_routes(table_routes(rows, c)),
    decreases rows.len(),
{
    if rows.len() > 0 {
        let d = rows.drop_last();
        assert forall|i: int| 0 <= i < d.len() implies all_flat(#[trigger] d[i]) by {
            assert(d[i] == rows[i]);
        }
        lemma_flat_table_routes(d, c);
        let row = rows.last();
        assert(all_flat(rows[rows.len() - 1]));
        lemma_flat_cell(row, c.method);
        lemma_flat_cell(row, c.uri);
        lemma_flat_cell(row, c.name);
        lemma_flat_cell(row, c.action);
        lemma_flat_truncated(cell_or_empty(row, c.action), MAX_ACTION_CHARS as nat);
        reveal_strlit(" ");
        reveal_strlit(" name=");
        reveal_strlit(" action=");
    }
}

proof fn lemma_flat_text_routes(lines: Seq<Seq<char>>)
    ensures
        are_flat_routes(text_routes(lines)),
    decreases lines.len(),
{
    if lines.len() > 0 {
        lemma_flat_text_routes(lines.drop_last());
        let words = word_seq(trimmed(lines.last()));
        lemma_flat_words(trimmed(lines.last()));
        reveal_strlit(" ");
        if words.len() >= 2 {
            assert(is_flat(words[0]) && is_flat(words[1]));
            let rest = words.skip(2);
            let kept = without_dots(rest);
            assert forall|i: int| 0 <= i < kept.len() implies is_flat(#[trigger] kept[i]) by {
                assert(kept.contains(kept[i]));
                rest.lemma_filter_contains_rev(
                    |w: Seq<char>| !all_dots(w),
                    kept[i],
                );
                let k = choose|k: int| 0 <= k < rest.len() && rest[k] == kept[i];
                assert(is_flat(words[k + 2]));
            }
            lemma_flat_joined(kept, " "@);
            lemma_flat_truncated(joined(kept, " "@), MAX_DETAIL_CHARS as nat);
        }
    }
}

proof fn lemma_flat_counts(routes: Seq<Route>)
    requires
        are_flat_routes(routes),
    ensures
        is_flat(counts_note(tally(methods_of(routes)))),
{
    let names = methods_of(routes);
    let e = entries_of(tally(names));
    law_tally(names);
    reveal_strlit("=");
    reveal_strlit(" ");
    let notes = entry_notes(e);
    assert forall|i: int| 0 <= i < notes.len() implies is_flat(#[trigger] notes[i]) by {
        assert(names.contains(e[i].0));
        let k = choose|k: int| 0 <= k < names.len() && names[k] == e[i].0;
        assert(is_flat(routes[k].method));
        lemma_flat_decimal(e[i].1);
    }
    lemma_flat_joined(notes, " "@);
}

proof fn lemma_route_summary_is_short(routes: Seq<Route>)
    requires
        are_flat_routes(routes),
    ensures
        line_count(summary_of(routes)) <= MAX_ROUTE_ROWS + 2,
{
    let counts = tally(methods_of(routes));
    let shown = lines_of(routes);
    let all = route_summary_lines(shown, counts);
    reveal_strlit("routes: ");
    reveal_strlit(" (");
    reveal_strlit(")");
    reveal_strlit("... +");
    reveal_strlit(" more routes");
    lemma_flat_counts(routes);
    lemma_flat_decimal(shown.len());
    assert(is_flat(route_head(shown.len(), counts)));
    assert(all_flat(shown)) by {
        assert forall|i: int| 0 <= i < shown.len() implies is_flat(#[trigger] shown[i]) by {
            assert(is_flat(routes[i].line));
        }
    }
    lemma_flat_capped(shown, MAX_ROUTE_ROWS as nat, "... +"@, " more routes"@);
    law_capped(shown, MAX_ROUTE_ROWS as nat, "... +"@, " more routes"@);
    lemma_line_count(all);
}

/// However many routes there are, a summary of them takes a bounded number of
/// lines.
pub proof fn law_route_list_is_short(output: Seq<char>)
    requires
        table_of(output) is Some || text_routes(line_seq(output)).len() > 0,
    ensures
        line_count(route_list(output)) <= MAX_ROUTE_ROWS + 2,
{
    lemma_flat_table(output);
    match table_of(output) {
        Some(t) => {
            let c = route_columns(t.headers);
            lemma_flat_table_routes(t.rows, c);
            lemma_route_summary_is_short(table_routes(t.rows, c));
        },
        None => {
            lemma_flat_text_routes(line_seq(output));
            lemma_route_summary_is_short(text_routes(line_seq(output)));
        },
    }
}

/// Whether no name of a migration holds a line feed.
spec fn are_flat_migrations(m: Migrations) -> bool {
    all_flat(m.ran) && all_flat(m.pending)
}

proof fn lemma_flat_with(m: Migrations, s: Status)
    requires
        are_flat_migrations(m),
        match s {
            Status::Ran(name) => is_flat(name),
            Status::Pending(name) => is_flat(name),
            Status::Neither => true,
        },
    ensures
        are_flat_migrations(m.with(s)),
{
    let n = m.with(s);
    assert forall|i: int| 0 <= i < n.ran.len() implies is_flat(#[trigger] n.ran[i]) by {
        if i < m.ran.len() {
            assert(is_flat(m.ran[i]));
        }
    }
    assert forall|i: int| 0 <= i < n.pending.len() implies is_flat(#[trigger] n.pending[i]) by {
        if i < m.pending.len() {
            assert(is_flat(m.pending[i]));
        }
    }
}

proof fn lemma_flat_table_migrations(rows: Seq<Seq<Seq<char>>>, c: MigrationColumns)
    requires
        forall|i: int| 0 <= i < rows.len() ==> all_flat(#[trigger] rows[i]),
    ensures
        are_flat_migrations(table_migrations(rows, c)),
    decreases rows.len(),
{
    if rows.len() > 0 {
        let d = rows.drop_last();
        assert forall|i: int| 0 <= i < d.len() implies all_flat(#[trigger] d[i]) by {
            assert(d[i] == rows[i]);
        }
        lemma_flat_table_migrations(d, c);
        assert(all_flat(rows[rows.len() - 1]));
        lemma_flat_cell(rows.last(), c.migration);
        lemma_flat_with(table_migrations(d, c), row_status(rows.last(), c));
    }
}

proof fn lemma_flat_name(line: Seq<char>)
    ensures
        is_flat(migration_name(line)),
{
    let words = word_seq(line);
    let kept = name_words(words);
    lemma_flat_words(line);
    reveal_strlit(" ");
    assert forall|i: int| 0 <= i < kept.len() implies is_flat(#[trigger] kept[i]) by {
        assert(kept.contains(kept[i]));
        words.lemma_filter_contains_rev(
            |w: Seq<char>| is_name_word(w),
            kept[i],
        );
        let k = choose|k: int| 0 <= k < words.len() && words[k] == kept[i];
        assert(is_flat(words[k]));
    }
    lemma_flat_joined(kept, " "@);
}

proof fn lemma_flat_text_migrations(lines: Seq<Seq<char>>)
    ensures
        are_flat_migrations(text_migrations(lines)),
    decreases lines.len(),
{
    if lines.len() > 0 {
        lemma_flat_text_migrations(lines.drop_last());
        lemma_flat_name(trimmed(lines.last()));
        lemma_flat_with(text_migrations(lines.drop_last()), line_status(lines.last()));
    }
}

proof fn lemma_flat_indented(names: Seq<Seq<char>>)
    requires
        all_flat(names),
    ensures
        all_flat(indented(names)),
{
    reveal_strlit("  ");
    assert forall|i: int| 0 <= i < names.len() implies is_flat(#[trigger] indented(names)[i]) by {
        assert(is_flat(names[i]));
    }
}

/// However many migrations there are, a summary of them takes a bounded number
/// of lines.
pub proof fn law_migrate_status_is_short(output: Seq<char>)
    requires
        migrations_of(output).ran.len() + migrations_of(output).pending.len() > 0,
    ensures
        line_count(migrate_status(output)) <= MAX_MIGRATION_ROWS + MAX_LATEST_RAN + 4,
{
    let m = migrations_of(output);
    lemma_flat_table(output);
    match table_of(output) {
        Some(t) => {
            lemma_flat_table_migrations(t.rows, migration_columns(t.headers));
        },
        None => {
            lemma_flat_text_migrations(line_seq(output));
        },
    }
    reveal_strlit("migrations: ");
    reveal_strlit(" ran, ");
    reveal_strlit(" pending");
    reveal_strlit("pending:");
    reveal_strlit("latest ran:");
    reveal_strlit("  ... +");
    reveal_strlit(" more pending");
    lemma_flat_decimal(m.ran.len());
    lemma_flat_decimal(m.pending.len());
    lemma_flat_indented(m.pending);
    lemma_flat_capped(
        indented(m.pending),
        MAX_MIGRATION_ROWS as nat,
        "  ... +"@,
        " more pending"@,
    );
    law_capped(indented(m.pending), MAX_MIGRATION_ROWS as nat, "  ... +"@, " more pending"@);
    assert(all_flat(latest(m.ran))) by {
        assert forall|i: int| 0 <= i < latest(m.ran).len() implies is_flat(
            #[trigger] latest(m.ran)[i],
        ) by {
            assert(is_flat(m.ran[i + (m.ran.len() - latest(m.ran).len())]));
        }
    }
    lemma_flat_indented(latest(m.ran));
    assert(is_flat(migration_head(m)));
    assert(all_flat(pending_lines(m.pending)));
    assert(all_flat(ran_lines(m.ran)));
    lemma_line_count(migration_lines(m));
}

proof fn lemma_flat_fields(lines: Seq<Seq<char>>)
    requires
        all_flat(lines),
    ensures
        is_flat(fields_of(lines).section),
        all_flat(fields_of(lines).rows),
    decreases lines.len(),
{
    if lines.len() > 0 {
        let d = lines.drop_last();
        assert forall|i: int| 0 <= i < d.len() implies is_flat(#[trigger] d[i]) by {
            assert(d[i] == lines[i]);
        }
        lemma_flat_fields(d);
        let f = fields_of(d);
        let line = lines.last();
        assert(is_flat(lines[lines.len() - 1]));
        let t = trimmed(line);
        lemma_flat_trimmed(line, Pattern::WhiteSpace);
        lemma_flat_normalized(t);
        reveal_strlit("=");
        reveal_strlit(".");
        if let Some(kv) = dotted(t) {
            lemma_flat_normalized(kv.key);
            lemma_flat_value(t);
            assert(is_flat(field_row(f.section, normalized(kv.key), kv.value)));
        }
        assert forall|i: int| 0 <= i < fields_of(lines).rows.len() implies is_flat(
            #[trigger] fields_of(lines).rows[i],
        ) by {
            if i < f.rows.len() {
                assert(is_flat(f.rows[i]));
            }
        }
    }
}

proof fn lemma_flat_value(t: Seq<char>)
    requires
        is_flat(t),
    ensures
        dotted(t) matches Some(kv) ==> is_flat(kv.value),
{
    if let Some(i) = first_from(t, "..."@, 0) {
        lemma_first_from(t, "..."@, 0);
        let rest = t.skip(i);
        let p = Pattern::Char('.');
        lemma_trimmed_front(rest, p);
        let value = trimmed_front(rest, p);
        assert(is_flat(value));
        lemma_flat_trimmed(value, Pattern::WhiteSpace);
    }
}

proof fn lemma_flat_field_lines(label: Seq<char>, output: Seq<char>)
    requires
        is_flat(label),
    ensures
        all_flat(field_lines(label, key_value_rows(output))),
        0 < field_lines(label, key_value_rows(output)).len() <= MAX_KV_LINES + 2,
{
    let rows = key_value_rows(output);
    lemma_flat_lines(output);
    lemma_flat_fields(line_seq(output));
    reveal_strlit(": ");
    reveal_strlit(" fields");
    reveal_strlit("... +");
    reveal_strlit(" more fields");
    lemma_flat_decimal(rows.len());
    lemma_flat_capped(rows, MAX_KV_LINES as nat, "... +"@, " more fields"@);
    law_capped(rows, MAX_KV_LINES as nat, "... +"@, " more fields"@);
}

proof fn lemma_flat_compact_table(label: Seq<char>, t: Grid)
    requires
        is_flat(label),
        is_flat_grid(t),
    ensures
        all_flat(compact_table_lines(label, t, MAX_GENERIC_ROWS as nat)),
        0 < compact_table_lines(label, t, MAX_GENERIC_ROWS as nat).len() <= MAX_GENERIC_ROWS + 3,
{
    reveal_strlit(": ");
    reveal_strlit(" rows");
    reveal_strlit("\t");
    reveal_strlit("... +");
    reveal_strlit(" more rows");
    lemma_flat_decimal(t.rows.len());
    lemma_flat_joined(t.headers, "\t"@);
    let rows = tabbed(t.rows);
    assert forall|i: int| 0 <= i < rows.len() implies is_flat(#[trigger] rows[i]) by {
        assert(all_flat(t.rows[i]));
        lemma_flat_joined(t.rows[i], "\t"@);
    }
    lemma_flat_capped(rows, MAX_GENERIC_ROWS as nat, "... +"@, " more rows"@);
    law_capped(rows, MAX_GENERIC_ROWS as nat, "... +"@, " more rows"@);
}

/// However many keys and values there are, or rows of a table, a summary of them
/// takes a bounded number of lines.
pub proof fn law_key_value_output_is_short(label: Seq<char>, output: Seq<char>)
    requires
        is_flat(label),
        table_of(output) is Some || key_value_rows(output).len() > 0,
    ensures
        line_count(key_value_output(label, output)) <= MAX_KV_LINES + 2,
{
    if key_value_rows(output).len() > 0 {
        lemma_flat_field_lines(label, output);
        lemma_line_count(field_lines(label, key_value_rows(output)));
    } else {
        let t = table_of(output)->0;
        lemma_flat_table(output);
        lemma_flat_compact_table(label, t);
        lemma_line_count(compact_table_lines(label, t, MAX_GENERIC_ROWS as nat));
    }
}

/// However large a database is, a summary of it takes a bounded number of lines.
pub proof fn law_db_show_is_short(output: Seq<char>)
    requires
        table_of(output) is Some || key_value_rows(output).len() > 0,
    ensures
        line_count(db_show(output)) <= MAX_KV_LINES + MAX_GENERIC_ROWS + 6,
{
    reveal_strlit("db:show");
    reveal_strlit("tables");
    if key_value_rows(output).len() == 0 {
        law_key_value_output_is_short("db:show"@, output);
    } else {
        let head = field_lines("db:show"@, key_value_rows(output));
        lemma_flat_field_lines("db:show"@, output);
        match table_of(output) {
            Some(t) => {
                let below = compact_table_lines("tables"@, t, MAX_GENERIC_ROWS as nat);
                let above = head.push(Seq::empty());
                lemma_flat_table(output);
                lemma_flat_compact_table("tables"@, t);
                assert(head + table_lines(output) =~= above.push(joined(below, "\n"@)));
                lemma_joined_nested(above, below, "\n"@);
                assert(all_flat(above + below)) by {
                    assert forall|i: int| 0 <= i < (above + below).len() implies is_flat(
                        #[trigger] (above + below)[i],
                    ) by {
                        if i < head.len() {
                            assert(is_flat(head[i]));
                        } else if i >= above.len() {
                            assert(is_flat(below[i - above.len()]));
                        }
                    }
                }
                lemma_line_count(above + below);
            },
            None => {
                assert(head + table_lines(output) =~= head);
                lemma_line_count(head);
            },
        }
    }
}

/// The number of lines that no summary exceeds.
pub const MAX_SUMMARY_LINES: usize = 126;

/// However long the output of a command is, its summary takes a bounded number
/// of lines, wherever something in the output is recognised.
pub proof fn law_summary_is_short(subcommand: Seq<char>, output: Seq<char>)
    requires
        is_recognised(subcommand, stripped(output)),
    ensures
        line_count(summary(subcommand, output)) <= MAX_SUMMARY_LINES,
{
    let clean = stripped(output);
    if trimmed(clean).len() == 0 {
        let ok = "ok php artisan "@ + subcommand;
        reveal_strlit("ok php artisan ");
        reveal_strlit("route:list");
        reveal_strlit("migrate:status");
        reveal_strlit("about");
        reveal_strlit("db:show");
        assert(is_flat(ok));
        lemma_line_count(seq![ok]);
    } else if subcommand == "route:list"@ {
        law_route_list_is_short(clean);
    } else if subcommand == "migrate:status"@ {
        law_migrate_status_is_short(clean);
    } else if subcommand == "about"@ {
        reveal_strlit("about");
        law_key_value_output_is_short("about"@, clean);
    } else {
        law_db_show_is_short(clean);
    }
}

} // verus!

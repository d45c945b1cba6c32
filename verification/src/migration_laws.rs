//! What `migrate:status` promises of its summaries.
use vstd::prelude::*;
use crate::migrations::{
    indented, is_name_word, latest, migrate_status, migration_columns, migration_lines,
    migration_name, migrations_of, pending_lines, ran_lines, row_status, table_migrations,
    text_migrations, MigrationColumns, Migrations,
};
use crate::report::{capped, law_capped};
use crate::table::{cell_or_empty, column, table_of, Grid};
use crate::text::{decimal, joined, line_seq, lowered, occurs_in, trimmed, word_seq};
use crate::text_laws::law_trimmed_words;

verus! {

/// The name of a migration is every word of its line, with one space between one
/// and the next, but for words of nothing but dots, `Ran`, `Pending`, `Yes` and
/// `No`, and what begins with a bracket.
pub proof fn law_migration_name(line: Seq<char>)
    ensures
        migration_name(line) == joined(
            word_seq(line).filter(
                |w: Seq<char>|
                    {
                        &&& exists|j: int| 0 <= j < w.len() && w[j] != '.'
                        &&& w != "Ran"@ && w != "Pending"@ && w != "Yes"@ && w != "No"@
                        &&& w[0] != '['
                    },
            ),
            " "@,
        ),
{
    let keep = |w: Seq<char>|
        {
            &&& exists|j: int| 0 <= j < w.len() && w[j] != '.'
            &&& w != "Ran"@ && w != "Pending"@ && w != "Yes"@ && w != "No"@
            &&& w[0] != '['
        };
    assert(keep =~= |w: Seq<char>| is_name_word(w));
}

/// The lines of a summary.
proof fn lemma_migration_lines(m: Migrations) -> (shown: Seq<Seq<char>>)
    ensures
        shown == migration_lines(m),
        shown[0] == "migrations: "@ + decimal(m.ran.len()) + " ran, "@ + decimal(m.pending.len())
            + " pending"@,
        shown.len() == 1 + pending_lines(m.pending).len() + ran_lines(m.ran).len(),
        pending_lines(m.pending).len() == (if m.pending.len() == 0 {
            0
        } else if m.pending.len() <= 40 {
            1 + m.pending.len()
        } else {
            42
        }),
        ran_lines(m.ran).len() == (if m.ran.len() == 0 {
            0
        } else if m.ran.len() <= 5 {
            1 + m.ran.len()
        } else {
            6
        }),
        m.pending.len() > 0 ==> shown[1] == "pending:"@,
        forall|k: int|
            0 <= k < m.pending.len() && k < 40 ==> shown[k + 2] == "  "@ + #[trigger] m.pending[k],
        m.pending.len() > 40 ==> shown[42] == "  ... +"@ + decimal((m.pending.len() - 40) as nat)
            + " more pending"@,
        m.ran.len() > 0 ==> shown[1 + pending_lines(m.pending).len() as int] == "latest ran:"@,
        forall|k: int|
            0 <= k < m.ran.len() && k + 5 >= m.ran.len() ==> shown[shown.len() - m.ran.len() + k]
                == "  "@ + #[trigger] m.ran[k],
{
    let shown = migration_lines(m);
    let names = indented(m.pending);
    let above = pending_lines(m.pending);
    let below = ran_lines(m.ran);
    law_capped(names, 40, "  ... +"@, " more pending"@);
    let c = capped(names, 40, "  ... +"@, " more pending"@);
    assert forall|k: int| 0 <= k < m.pending.len() && k < 40 implies shown[k + 2] == "  "@
        + #[trigger] m.pending[k] by {
        assert(shown[k + 2] == above[k + 1]);
        assert(above[k + 1] == c[k]);
        assert(names[k] == "  "@ + m.pending[k]);
        if names.len() > 40 {
            assert(c.drop_last()[k] == c[k]);
        }
    }
    if m.pending.len() > 0 {
        assert(shown[1] == above[0]);
    }
    if m.pending.len() > 40 {
        assert(shown[42] == above[41]);
        assert(above[41] == c[40]);
        assert(c.last() == c[40]);
    }
    if m.ran.len() > 0 {
        assert(shown[1 + above.len() as int] == below[0]);
    }
    assert forall|k: int| 0 <= k < m.ran.len() && k + 5 >= m.ran.len() implies shown[shown.len()
        - m.ran.len() + k] == "  "@ + #[trigger] m.ran[k] by {
        let i = below.len() - m.ran.len() + k;
        assert(shown[shown.len() - m.ran.len() + k] == below[i]);
        assert(below[i] == indented(latest(m.ran))[i - 1]);
        assert(latest(m.ran)[i - 1] == m.ran[k]);
    }
    shown
}

/// Whether `line` says that its migration has not run.
pub open spec fn tells_pending(line: Seq<char>) -> bool {
    let t = trimmed(line);
    &&& t.len() > 0
    &&& !("Migration name"@.is_prefix_of(t))
    &&& occurs_in(t, " Pending"@) || "Pending"@.is_suffix_of(t) || occurs_in(t, "No"@)
}

/// Whether `line` says that its migration ran.
pub open spec fn tells_ran(line: Seq<char>) -> bool {
    let t = trimmed(line);
    &&& t.len() > 0
    &&& !("Migration name"@.is_prefix_of(t))
    &&& !tells_pending(line)
    &&& occurs_in(t, " Ran"@) || "Ran"@.is_suffix_of(t) || occurs_in(t, "Yes"@)
}

proof fn lemma_text_migrations(lines: Seq<Seq<char>>)
    ensures
        ({
            let ran = lines.filter(|l: Seq<char>| tells_ran(l));
            let pending = lines.filter(|l: Seq<char>| tells_pending(l));
            let m = text_migrations(lines);
            &&& m.ran == ran.map_values(|l: Seq<char>| migration_name(l))
            &&& m.pending == pending.map_values(|l: Seq<char>| migration_name(l))
        }),
    decreases lines.len(),
{
    reveal(Seq::filter);
    let m = text_migrations(lines);
    let ran = lines.filter(|l: Seq<char>| tells_ran(l));
    let pending = lines.filter(|l: Seq<char>| tells_pending(l));
    if lines.len() > 0 {
        lemma_text_migrations(lines.drop_last());
        law_trimmed_words(lines.last());
    }
    assert(m.ran =~= ran.map_values(|l: Seq<char>| migration_name(l)));
    assert(m.pending =~= pending.map_values(|l: Seq<char>| migration_name(l)));
}

/// Of output without a table, every line that says ran or pending counts once, as
/// the one or the other. The first line of the summary gives both counts. The
/// first forty pending migrations follow `pending:`, and the last five that ran
/// follow `latest ran:`; either heading is there exactly when there is such a
/// migration. Output without such a line is kept as it is.
pub proof fn law_migrations_in_text(
    output: Seq<char>,
    ran: Seq<Seq<char>>,
    pending: Seq<Seq<char>>,
) -> (shown: Seq<Seq<char>>)
    requires
        table_of(output) is None,
        ran == line_seq(output).filter(|l: Seq<char>| tells_ran(l)),
        pending == line_seq(output).filter(|l: Seq<char>| tells_pending(l)),
    ensures
        ran.len() + pending.len() == 0 ==> migrate_status(output) == output,
        ran.len() + pending.len() > 0 ==> {
            let above: nat = if pending.len() == 0 {
                0
            } else if pending.len() <= 40 {
                1 + pending.len()
            } else {
                42
            };
            let below: nat = if ran.len() == 0 {
                0
            } else if ran.len() <= 5 {
                1 + ran.len()
            } else {
                6
            };
            &&& migrate_status(output) == joined(shown, "\n"@)
            &&& shown.len() == 1 + above + below
            &&& shown[0] == "migrations: "@ + decimal(ran.len()) + " ran, "@ + decimal(
                pending.len(),
            ) + " pending"@
            &&& pending.len() > 0 ==> shown[1] == "pending:"@
            &&& forall|k: int|
                0 <= k < pending.len() && k < 40 ==> shown[k + 2] == "  "@ + migration_name(
                    #[trigger] pending[k],
                )
            &&& pending.len() > 40 ==> shown[42] == "  ... +"@ + decimal(
                (pending.len() - 40) as nat,
            ) + " more pending"@
            &&& ran.len() > 0 ==> shown[1 + above as int] == "latest ran:"@
            &&& forall|k: int|
                0 <= k < ran.len() && k + 5 >= ran.len() ==> shown[shown.len() - ran.len() + k]
                    == "  "@ + migration_name(#[trigger] ran[k])
        },
{
    let m = migrations_of(output);
    lemma_text_migrations(line_seq(output));
    let shown = lemma_migration_lines(m);
    assert forall|k: int| 0 <= k < pending.len() implies m.pending[k] == migration_name(
        #[trigger] pending[k],
    ) by {}
    assert forall|k: int| 0 <= k < ran.len() implies m.ran[k] == migration_name(
        #[trigger] ran[k],
    ) by {}
    shown
}

proof fn lemma_table_migrations(rows: Seq<Seq<Seq<char>>>, c: MigrationColumns)
    ensures
        ({
            let ran = rows.filter(|r: Seq<Seq<char>>| row_status(r, c) is Ran);
            let pending = rows.filter(|r: Seq<Seq<char>>| row_status(r, c) is Pending);
            let m = table_migrations(rows, c);
            &&& m.ran == ran.map_values(|r: Seq<Seq<char>>| cell_or_empty(r, c.migration))
            &&& m.pending == pending.map_values(|r: Seq<Seq<char>>| cell_or_empty(r, c.migration))
        }),
    decreases rows.len(),
{
    reveal(Seq::filter);
    let ran = rows.filter(|r: Seq<Seq<char>>| row_status(r, c) is Ran);
    let pending = rows.filter(|r: Seq<Seq<char>>| row_status(r, c) is Pending);
    let m = table_migrations(rows, c);
    if rows.len() > 0 {
        lemma_table_migrations(rows.drop_last(), c);
    }
    assert(m.ran =~= ran.map_values(|r: Seq<Seq<char>>| cell_or_empty(r, c.migration)));
    assert(m.pending =~= pending.map_values(|r: Seq<Seq<char>>| cell_or_empty(r, c.migration)));
}

/// Of output with a table, every row that names a migration counts once: as one
/// that ran where its status says yes or ran, or it has a batch, and else as
/// pending. The summary shows them as it does those of lines of text. A table
/// without such a row is kept as it is.
pub proof fn law_migrations_in_table(
    output: Seq<char>,
    t: Grid,
    status: Option<int>,
    name: Option<int>,
    batch: Option<int>,
    ran: Seq<Seq<Seq<char>>>,
    pending: Seq<Seq<Seq<char>>>,
) -> (shown: Seq<Seq<char>>)
    requires
        table_of(output) == Some(t),
        status == column(t.headers, seq!["ran?"@, "ran"@, "status"@]),
        name == column(t.headers, seq!["migration"@, "name"@]),
        batch == column(t.headers, seq!["batch"@]),
        ran == t.rows.filter(
            |r: Seq<Seq<char>>|
                {
                    let said = lowered(cell_or_empty(r, status));
                    &&& cell_or_empty(r, name).len() > 0
                    &&& occurs_in(said, "yes"@) || said == "ran"@ || cell_or_empty(r, batch).len()
                        > 0
                },
        ),
        pending == t.rows.filter(
            |r: Seq<Seq<char>>|
                {
                    let said = lowered(cell_or_empty(r, status));
                    &&& cell_or_empty(r, name).len() > 0
                    &&& !occurs_in(said, "yes"@) && said != "ran"@ && cell_or_empty(r, batch).len()
                        == 0
                },
        ),
    ensures
        ran.len() + pending.len() == 0 ==> migrate_status(output) == output,
        ran.len() + pending.len() > 0 ==> {
            let above: nat = if pending.len() == 0 {
                0
            } else if pending.len() <= 40 {
                1 + pending.len()
            } else {
                42
            };
            let below: nat = if ran.len() == 0 {
                0
            } else if ran.len() <= 5 {
                1 + ran.len()
            } else {
                6
            };
            &&& migrate_status(output) == joined(shown, "\n"@)
            &&& shown.len() == 1 + above + below
            &&& shown[0] == "migrations: "@ + decimal(ran.len()) + " ran, "@ + decimal(
                pending.len(),
            ) + " pending"@
            &&& pending.len() > 0 ==> shown[1] == "pending:"@
            &&& forall|k: int|
                0 <= k < pending.len() && k < 40 ==> shown[k + 2] == "  "@ + cell_or_empty(
                    #[trigger] pending[k],
                    name,
                )
            &&& pending.len() > 40 ==> shown[42] == "  ... +"@ + decimal(
                (pending.len() - 40) as nat,
            ) + " more pending"@
            &&& ran.len() > 0 ==> shown[1 + above as int] == "latest ran:"@
            &&& forall|k: int|
                0 <= k < ran.len() && k + 5 >= ran.len() ==> shown[shown.len() - ran.len() + k]
                    == "  "@ + cell_or_empty(#[trigger] ran[k], name)
        },
{
    let m = migrations_of(output);
    let c = migration_columns(t.headers);
    let is_ran = |r: Seq<Seq<char>>|
        {
            let said = lowered(cell_or_empty(r, status));
            &&& cell_or_empty(r, name).len() > 0
            &&& occurs_in(said, "yes"@) || said == "ran"@ || cell_or_empty(r, batch).len() > 0
        };
    let is_pending = |r: Seq<Seq<char>>|
        {
            let said = lowered(cell_or_empty(r, status));
            &&& cell_or_empty(r, name).len() > 0
            &&& !occurs_in(said, "yes"@) && said != "ran"@ && cell_or_empty(r, batch).len() == 0
        };
    assert(t.rows.filter(is_ran) == ran && t.rows.filter(is_pending) == pending);
    assert(is_ran =~= |r: Seq<Seq<char>>| row_status(r, c) is Ran);
    assert(is_pending =~= |r: Seq<Seq<char>>| row_status(r, c) is Pending);
    lemma_table_migrations(t.rows, c);
    let shown = lemma_migration_lines(m);
    assert forall|k: int| 0 <= k < pending.len() implies m.pending[k] == cell_or_empty(
        #[trigger] pending[k],
        name,
    ) by {}
    assert forall|k: int| 0 <= k < ran.len() implies m.ran[k] == cell_or_empty(
        #[trigger] ran[k],
        name,
    ) by {}
    shown
}

} // verus!

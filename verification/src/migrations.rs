//! `migrate:status`.
use vstd::prelude::*;
use crate::report::{capped, push_all, push_capped, push_line};
use crate::routes::{all_dots, is_all_dots};
use crate::table::{
    cell_or_default, cell_or_empty, column, find_column, labels, parse_ascii_table, position,
    row_texts, table_of, ParsedTable,
};
use crate::text::{
    contains, decimal, ends_with, join, joined, line_seq, lines, lowered, occurs_in, same,
    split_whitespace, starts_with, texts, to_ascii_lowercase, to_decimal, trim, trimmed, word_seq,
};

verus! {

/// How many pending migrations are shown.
pub const MAX_MIGRATION_ROWS: usize = 40;

/// How many of the migrations that ran are shown.
pub const MAX_LATEST_RAN: usize = 5;

/// Whether `part` is the name of a status.
pub open spec fn is_status_word(part: Seq<char>) -> bool {
    part == "Ran"@ || part == "Pending"@ || part == "Yes"@ || part == "No"@
}

/// Whether `part` belongs to the name of a migration: it is more than dots, no
/// status, and no batch number in brackets.
pub open spec fn is_name_word(part: Seq<char>) -> bool {
    &&& !all_dots(part)
    &&& !is_status_word(part)
    &&& !(part.len() > 0 && part.first() == '[')
}

/// The words that belong to the name of a migration.
pub open spec fn name_words(words: Seq<Seq<char>>) -> Seq<Seq<char>> {
    words.filter(|w: Seq<char>| is_name_word(w))
}

/// The name of the migration in `line`.
pub open spec fn migration_name(line: Seq<char>) -> Seq<char> {
    joined(name_words(word_seq(line)), " "@)
}

/// Removes all but the name of the migration from `line`.
pub fn trim_migration_status_line(line: &str) -> (r: String)
    ensures
        r@ == migration_name(line@),
{
    let words = split_whitespace(line);
    let ghost all = texts(words@);
    let mut kept: Vec<String> = Vec::new();
    let mut i: usize = 0;
    assert(texts(kept@) =~= name_words(all.take(0))) by {
        reveal(Seq::filter);
    }
    while i < words.len()
        invariant
            i <= words@.len(),
            all == texts(words@),
            texts(kept@) == name_words(all.take(i as int)),
        decreases words@.len() - i,
    {
        assert(all.take(i + 1).drop_last() =~= all.take(i as int));
        let w = words[i].as_str();
        let bracket = !w.is_empty() && w.get_char(0) == '[';
        if !is_all_dots(w) && !(same(w, "Ran") || same(w, "Pending") || same(w, "Yes") || same(
            w,
            "No",
        )) && !bracket {
            push_line(&mut kept, words[i].clone());
        }
        proof {
            reveal(Seq::filter);
        }
        i += 1;
    }
    assert(all.take(i as int) =~= all);
    join(kept.as_slice(), " ")
}

/// What a row or a line says of a migration.
pub enum Status {
    Ran(Seq<char>),
    Pending(Seq<char>),
    Neither,
}

/// The migrations that ran, and those that did not.
#[verifier::ext_equal]
pub struct Migrations {
    pub ran: Seq<Seq<char>>,
    pub pending: Seq<Seq<char>>,
}

impl Migrations {
    /// No migrations.
    pub open spec fn none() -> Migrations {
        Migrations { ran: Seq::empty(), pending: Seq::empty() }
    }

    /// These migrations and one more.
    pub open spec fn with(self, s: Status) -> Migrations {
        match s {
            Status::Ran(m) => Migrations { ran: self.ran.push(m), pending: self.pending },
            Status::Pending(m) => Migrations { ran: self.ran, pending: self.pending.push(m) },
            Status::Neither => self,
        }
    }
}

/// Where a table has the columns on migrations.
pub struct MigrationColumns {
    pub ran: Option<int>,
    pub migration: Option<int>,
    pub batch: Option<int>,
}

/// The columns under `headers`.
pub open spec fn migration_columns(headers: Seq<Seq<char>>) -> MigrationColumns {
    MigrationColumns {
        ran: column(headers, seq!["ran?"@, "ran"@, "status"@]),
        migration: column(headers, seq!["migration"@, "name"@]),
        batch: column(headers, seq!["batch"@]),
    }
}

/// Whether a row says that its migration ran: by its status, or by naming the
/// batch in which it ran.
pub open spec fn row_says_ran(status: Seq<char>, batch: Seq<char>) -> bool {
    ||| occurs_in(lowered(status), "yes"@)
    ||| lowered(status) == "ran"@
    ||| batch.len() > 0
}

/// What a row says of its migration.
pub open spec fn row_status(row: Seq<Seq<char>>, c: MigrationColumns) -> Status {
    let migration = cell_or_empty(row, c.migration);
    if migration.len() == 0 {
        Status::Neither
    } else if row_says_ran(cell_or_empty(row, c.ran), cell_or_empty(row, c.batch)) {
        Status::Ran(migration)
    } else {
        Status::Pending(migration)
    }
}

/// The migrations in the rows of a table.
pub open spec fn table_migrations(rows: Seq<Seq<Seq<char>>>, c: MigrationColumns) -> Migrations
    decreases rows.len(),
{
    if rows.len() == 0 {
        Migrations::none()
    } else {
        table_migrations(rows.drop_last(), c).with(row_status(rows.last(), c))
    }
}

/// Whether `line` says that its migration has not run.
pub open spec fn line_says_pending(line: Seq<char>) -> bool {
    ||| occurs_in(line, " Pending"@)
    ||| "Pending"@.is_suffix_of(line)
    ||| occurs_in(line, "No"@)
}

/// Whether `line` says that its migration ran.
pub open spec fn line_says_ran(line: Seq<char>) -> bool {
    ||| occurs_in(line, " Ran"@)
    ||| "Ran"@.is_suffix_of(line)
    ||| occurs_in(line, "Yes"@)
}

/// What a line of text says of its migration.
pub open spec fn line_status(line: Seq<char>) -> Status {
    let t = trimmed(line);
    if t.len() == 0 || "Migration name"@.is_prefix_of(t) {
        Status::Neither
    } else if line_says_pending(t) {
        Status::Pending(migration_name(t))
    } else if line_says_ran(t) {
        Status::Ran(migration_name(t))
    } else {
        Status::Neither
    }
}

/// The migrations in lines of text.
pub open spec fn text_migrations(lines: Seq<Seq<char>>) -> Migrations
    decreases lines.len(),
{
    if lines.len() == 0 {
        Migrations::none()
    } else {
        text_migrations(lines.drop_last()).with(line_status(lines.last()))
    }
}

/// The migrations in the output of `migrate:status`.
pub open spec fn migrations_of(output: Seq<char>) -> Migrations {
    match table_of(output) {
        Some(t) => table_migrations(t.rows, migration_columns(t.headers)),
        None => text_migrations(line_seq(output)),
    }
}

/// Each of `names`, indented.
pub open spec fn indented(names: Seq<Seq<char>>) -> Seq<Seq<char>> {
    names.map_values(|m: Seq<char>| "  "@ + m)
}

/// The last of `names`, up to a limit.
pub open spec fn latest(names: Seq<Seq<char>>) -> Seq<Seq<char>> {
    if names.len() <= MAX_LATEST_RAN {
        names
    } else {
        names.skip(names.len() - MAX_LATEST_RAN)
    }
}

/// The lines on pending migrations.
pub open spec fn pending_lines(pending: Seq<Seq<char>>) -> Seq<Seq<char>> {
    if pending.len() == 0 {
        Seq::empty()
    } else {
        seq!["pending:"@] + capped(
            indented(pending),
            MAX_MIGRATION_ROWS as nat,
            "  ... +"@,
            " more pending"@,
        )
    }
}

/// The lines on migrations that ran.
pub open spec fn ran_lines(ran: Seq<Seq<char>>) -> Seq<Seq<char>> {
    if ran.len() == 0 {
        Seq::empty()
    } else {
        seq!["latest ran:"@] + indented(latest(ran))
    }
}

/// The first line: how many migrations ran, and how many did not.
pub open spec fn migration_head(m: Migrations) -> Seq<char> {
    "migrations: "@ + decimal(m.ran.len()) + " ran, "@ + decimal(m.pending.len()) + " pending"@
}

/// The lines of a summary.
pub open spec fn migration_lines(m: Migrations) -> Seq<Seq<char>> {
    seq![migration_head(m)] + pending_lines(m.pending) + ran_lines(m.ran)
}

/// What stands for the output of `migrate:status`: the summary of its
/// migrations, or the output as it is when it shows none.
pub open spec fn migrate_status(output: Seq<char>) -> Seq<char> {
    let m = migrations_of(output);
    if m.ran.len() == 0 && m.pending.len() == 0 {
        output
    } else {
        joined(migration_lines(m), "\n"@)
    }
}

/// The migrations as they are collected.
struct Collected {
    ran: Vec<String>,
    pending: Vec<String>,
}

impl View for Collected {
    type V = Migrations;

    closed spec fn view(&self) -> Migrations {
        Migrations { ran: texts(self.ran@), pending: texts(self.pending@) }
    }
}

/// Collects the migrations in a table.
fn collect_table(table: &ParsedTable) -> (r: Collected)
    ensures
        r@ == table_migrations(table@.rows, migration_columns(table@.headers)),
{
    let headers = table.headers.as_slice();
    let ran_names = ["ran?", "ran", "status"];
    let migration_names = ["migration", "name"];
    let batch_names = ["batch"];
    let ran_idx = find_column(headers, &ran_names);
    let migration_idx = find_column(headers, &migration_names);
    let batch_idx = find_column(headers, &batch_names);
    let ghost c = migration_columns(table@.headers);
    assert(labels(ran_names@) =~= seq!["ran?"@, "ran"@, "status"@]);
    assert(labels(migration_names@) =~= seq!["migration"@, "name"@]);
    assert(labels(batch_names@) =~= seq!["batch"@]);
    let ghost all = row_texts(table.rows@);
    let mut found = Collected { ran: Vec::new(), pending: Vec::new() };
    let mut i: usize = 0;
    assert(found@ =~= table_migrations(all.take(0), c));
    while i < table.rows.len()
        invariant
            i <= table.rows@.len(),
            all == row_texts(table.rows@),
            c.ran == position(ran_idx),
            c.migration == position(migration_idx),
            c.batch == position(batch_idx),
            found@ == table_migrations(all.take(i as int), c),
        decreases table.rows@.len() - i,
    {
        assert(all.take(i + 1).drop_last() =~= all.take(i as int));
        let row = table.rows[i].as_slice();
        let migration = cell_or_default(row, migration_idx);
        if !migration.is_empty() {
            let ran_value = to_ascii_lowercase(cell_or_default(row, ran_idx));
            let batch = cell_or_default(row, batch_idx);
            if contains(ran_value.as_str(), "yes") || same(ran_value.as_str(), "ran")
                || !batch.is_empty() {
                push_line(&mut found.ran, migration.to_owned());
            } else {
                push_line(&mut found.pending, migration.to_owned());
            }
        }
        i += 1;
    }
    assert(all.take(i as int) =~= all);
    found
}

/// Collects the migrations in lines of text.
fn collect_text(output: &str) -> (r: Collected)
    ensures
        r@ == text_migrations(line_seq(output@)),
{
    let ls = lines(output);
    let ghost all = texts(ls@);
    let mut found = Collected { ran: Vec::new(), pending: Vec::new() };
    let mut i: usize = 0;
    assert(found@ =~= text_migrations(all.take(0)));
    while i < ls.len()
        invariant
            i <= ls@.len(),
            all == texts(ls@),
            found@ == text_migrations(all.take(i as int)),
        decreases ls@.len() - i,
    {
        assert(all.take(i + 1).drop_last() =~= all.take(i as int));
        let line = trim(ls[i].as_str());
        if !line.is_empty() && !starts_with(line, "Migration name") {
            if contains(line, " Pending") || ends_with(line, "Pending") || contains(line, "No") {
                push_line(&mut found.pending, trim_migration_status_line(line));
            } else if contains(line, " Ran") || ends_with(line, "Ran") || contains(line, "Yes") {
                push_line(&mut found.ran, trim_migration_status_line(line));
            }
        }
        i += 1;
    }
    assert(all.take(i as int) =~= all);
    found
}

/// Indents the names from `from` on.
fn indent(names: &Vec<String>, from: usize) -> (r: Vec<String>)
    requires
        from <= names@.len(),
    ensures
        texts(r@) == indented(texts(names@).skip(from as int)),
{
    let ghost all = texts(names@).skip(from as int);
    let mut out: Vec<String> = Vec::new();
    let mut i: usize = from;
    while i < names.len()
        invariant
            from <= i <= names@.len(),
            all == texts(names@).skip(from as int),
            texts(out@) == indented(all.take(i - from)),
        decreases names@.len() - i,
    {
        let mut line = "  ".to_owned();
        line.append(names[i].as_str());
        push_line(&mut out, line);
        i += 1;
        assert(texts(out@) =~= indented(all.take(i - from)));
    }
    assert(all.take(i - from) =~= all);
    out
}

/// Summarises the output of `migrate:status`.
pub fn filter_migrate_status(output: &str) -> (r: String)
    ensures
        r@ == migrate_status(output@),
{
    let found = match parse_ascii_table(output) {
        Some(table) => collect_table(&table),
        None => collect_text(output),
    };
    let ran = found.ran;
    let pending = found.pending;
    let ghost m = migrations_of(output@);
    assert(m.ran == texts(ran@) && m.pending == texts(pending@));
    if ran.len() == 0 && pending.len() == 0 {
        return output.to_owned();
    }
    let mut head = "migrations: ".to_owned();
    head.append(to_decimal(ran.len()).as_str());
    head.append(" ran, ");
    head.append(to_decimal(pending.len()).as_str());
    head.append(" pending");
    let mut out: Vec<String> = Vec::new();
    push_line(&mut out, head);
    if pending.len() > 0 {
        push_line(&mut out, "pending:".to_owned());
        let shown = indent(&pending, 0);
        assert(m.pending.skip(0) =~= m.pending);
        push_capped(&mut out, shown.as_slice(), MAX_MIGRATION_ROWS, "  ... +", " more pending");
    }
    assert(texts(out@) =~= seq![migration_head(m)] + pending_lines(m.pending));
    if ran.len() > 0 {
        let ghost above = texts(out@);
        push_line(&mut out, "latest ran:".to_owned());
        let start: usize = if ran.len() <= MAX_LATEST_RAN {
            0
        } else {
            ran.len() - MAX_LATEST_RAN
        };
        let shown = indent(&ran, start);
        assert(m.ran.skip(start as int) =~= latest(m.ran));
        push_all(&mut out, shown.as_slice());
        assert(texts(out@) =~= above + ran_lines(m.ran));
    }
    assert(texts(out@) =~= migration_lines(m));
    join(out.as_slice(), "\n")
}

/// Whether a row names a migration.
pub open spec fn names_migration(row: Seq<Seq<char>>, c: MigrationColumns) -> bool {
    cell_or_empty(row, c.migration).len() > 0
}

/// Every row that names a migration is counted once: as one that ran, or as one
/// that is pending.
pub proof fn law_rows_are_counted_once(rows: Seq<Seq<Seq<char>>>, c: MigrationColumns)
    ensures
        table_migrations(rows, c).ran.len() + table_migrations(rows, c).pending.len()
            == rows.filter(|r: Seq<Seq<char>>| names_migration(r, c)).len(),
    decreases rows.len(),
{
    reveal(Seq::filter);
    if rows.len() > 0 {
        law_rows_are_counted_once(rows.drop_last(), c);
    }
}

/// Every line that states a status is counted once, and a line that states both
/// is counted as pending.
pub proof fn law_lines_are_counted_once(lines: Seq<Seq<char>>)
    ensures
        text_migrations(lines).ran.len() + text_migrations(lines).pending.len() == lines.filter(
            |l: Seq<char>| line_status(l) !is Neither,
        ).len(),
        forall|l: Seq<char>|
            line_says_pending(trimmed(l)) ==> !(#[trigger] line_status(l) is Ran),
    decreases lines.len(),
{
    reveal(Seq::filter);
    if lines.len() > 0 {
        law_lines_are_counted_once(lines.drop_last());
    }
}

/// The name of a migration holds no status, no batch number and no filling dots,
/// and every other word of the line.
pub proof fn law_names_hold_no_status(words: Seq<Seq<char>>)
    ensures
        forall|i: int|
            0 <= i < name_words(words).len() ==> is_name_word(#[trigger] name_words(words)[i]),
        forall|w: Seq<char>|
            words.contains(w) && is_name_word(w) ==> #[trigger] name_words(words).contains(w),
{
    let keep = |w: Seq<char>| is_name_word(w);
    assert forall|i: int| 0 <= i < name_words(words).len() implies is_name_word(
        #[trigger] name_words(words)[i],
    ) by {
        words.lemma_filter_pred(keep, i);
    }
    assert forall|w: Seq<char>|
        words.contains(w) && is_name_word(w) implies #[trigger] name_words(words).contains(w) by {
        let k = choose|k: int| 0 <= k < words.len() && words[k] == w;
        words.lemma_filter_contains(keep, k);
    }
}

} // verus!

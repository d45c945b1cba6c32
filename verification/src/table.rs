//! Tables drawn with `|`, `+`, `-` and `=`.
use vstd::prelude::*;
use crate::report::{capped, push_capped, push_line};
use crate::text::{
    chars_of, contains_char, cut_at, decimal, is_space, is_whitespace, join, joined, line_seq,
    lines, lowered, pieces, same, texts, to_ascii_lowercase, to_decimal, trim, trim_matches,
    trimmed, trimmed_of, Pattern,
};
use crate::text_laws::law_trim_idempotent;

verus! {

/// A table: the cells of its first row, and the rows below.
#[derive(Debug, PartialEq)]
pub struct ParsedTable {
    pub headers: Vec<String>,
    pub rows: Vec<Vec<String>>,
}

/// The contents of a table.
#[verifier::ext_equal]
pub struct Grid {
    pub headers: Seq<Seq<char>>,
    pub rows: Seq<Seq<Seq<char>>>,
}

/// The contents of a list of rows.
pub open spec fn row_texts(rows: Seq<Vec<String>>) -> Seq<Seq<Seq<char>>> {
    rows.map_values(|r: Vec<String>| texts(r@))
}

impl View for ParsedTable {
    type V = Grid;

    open spec fn view(&self) -> Grid {
        Grid { headers: texts(self.headers@), rows: row_texts(self.rows@) }
    }
}

/// The characters that border lines are drawn with.
pub open spec fn is_border_char(c: char) -> bool {
    c == '+' || c == '-' || c == '=' || c == ' ' || c == ':'
}

/// Whether `line` is a border: at least three characters, all of them border
/// characters, and among them a `-` or a `=`.
pub open spec fn is_border(line: Seq<char>) -> bool {
    &&& line.len() >= 3
    &&& forall|i: int| 0 <= i < line.len() ==> is_border_char(#[trigger] line[i])
    &&& line.contains('-') || line.contains('=')
}

/// Tells whether `line` is a border of a table.
pub fn is_ascii_border(line: &str) -> (r: bool)
    ensures
        r == is_border(line@),
{
    let v = chars_of(line);
    let mut i: usize = 0;
    while i < v.len()
        invariant
            v@ == line@,
            i <= v@.len(),
            forall|j: int| 0 <= j < i ==> is_border_char(#[trigger] line@[j]),
        decreases v@.len() - i,
    {
        let c = v[i];
        if !(c == '+' || c == '-' || c == '=' || c == ' ' || c == ':') {
            assert(!is_border_char(line@[i as int]));
            return false;
        }
        i += 1;
    }
    v.len() >= 3 && (contains_char(line, '-') || contains_char(line, '='))
}

/// Whether the `|` at position `i` parts two cells: it has white space, or
/// nothing, on either side. A `|` inside a word belongs to the word.
pub open spec fn is_separator(s: Seq<char>, i: int) -> bool {
    &&& s[i] == '|'
    &&& i == 0 || is_space(s[i - 1])
    &&& i + 1 == s.len() || is_space(s[i + 1])
}

/// The positions in `s` at which a `|` parts two cells.
pub open spec fn separators(s: Seq<char>) -> Seq<bool> {
    Seq::new(s.len(), |i: int| is_separator(s, i))
}

/// What stands between the outer `|` of a row.
pub open spec fn row_inner(line: Seq<char>) -> Seq<char> {
    trimmed_of(trimmed(line), Pattern::Char('|'))
}

/// Every text of `parts` without white space at either end.
pub open spec fn trimmed_each(parts: Seq<Seq<char>>) -> Seq<Seq<char>> {
    parts.map_values(|c: Seq<char>| trimmed(c))
}

/// The cells of a row.
pub open spec fn cell_seq(line: Seq<char>) -> Seq<Seq<char>> {
    trimmed_each(pieces(row_inner(line), separators(row_inner(line))))
}

/// Splits a row of a table into its cells.
pub fn split_table_cells(line: &str) -> (r: Vec<String>)
    ensures
        texts(r@) == cell_seq(line@),
{
    let inner = chars_of(trim_matches(trim(line), Pattern::Char('|')));
    let n: usize = inner.len();
    let mut cuts: Vec<bool> = Vec::new();
    let mut i: usize = 0;
    while i < n
        invariant
            n == inner@.len(),
            i <= n,
            cuts@ == separators(inner@).take(i as int),
        decreases n - i,
    {
        let before = i == 0 || is_whitespace(inner[i - 1]);
        let after = i + 1 == n || is_whitespace(inner[i + 1]);
        cuts.push(inner[i] == '|' && before && after);
        i += 1;
        assert(cuts@ =~= separators(inner@).take(i as int));
    }
    assert(cuts@ =~= separators(inner@));
    let parts = cut_at(&inner, &cuts);
    let ghost all = texts(parts@);
    let mut cells: Vec<String> = Vec::new();
    let mut k: usize = 0;
    while k < parts.len()
        invariant
            k <= parts@.len(),
            all == texts(parts@),
            texts(cells@) == trimmed_each(all.take(k as int)),
        decreases parts@.len() - k,
    {
        push_line(&mut cells, trim(parts[k].as_str()).to_owned());
        k += 1;
        assert(texts(cells@) =~= trimmed_each(all.take(k as int)));
    }
    assert(all.take(k as int) =~= all);
    cells
}

/// Whether `line` is a row: but for white space around it, it begins and ends
/// with `|`.
pub open spec fn is_row(line: Seq<char>) -> bool {
    let t = trimmed(line);
    t.len() > 0 && t.first() == '|' && t.last() == '|'
}

/// The cells of those of `lines` that are rows.
pub open spec fn row_seq(lines: Seq<Seq<char>>) -> Seq<Seq<Seq<char>>>
    decreases lines.len(),
{
    if lines.len() == 0 {
        Seq::empty()
    } else {
        let before = row_seq(lines.drop_last());
        if is_row(lines.last()) {
            before.push(cell_seq(trimmed(lines.last())))
        } else {
            before
        }
    }
}

/// The table in `output`: its rows, the first of them as the headers. There is
/// none unless a row follows the headers.
pub open spec fn table_of(output: Seq<char>) -> Option<Grid> {
    let rows = row_seq(line_seq(output));
    if rows.len() < 2 {
        None
    } else {
        Some(Grid { headers: rows[0], rows: rows.skip(1) })
    }
}

/// Reads the table in `output`, if it holds one.
pub fn parse_ascii_table(output: &str) -> (r: Option<ParsedTable>)
    ensures
        match r {
            Some(t) => table_of(output@) == Some(t@),
            None => table_of(output@) is None,
        },
{
    let ls = lines(output);
    let ghost all = texts(ls@);
    let mut rows: Vec<Vec<String>> = Vec::new();
    let mut i: usize = 0;
    assert(row_texts(rows@) =~= row_seq(all.take(0)));
    while i < ls.len()
        invariant
            i <= ls@.len(),
            all == texts(ls@),
            row_texts(rows@) == row_seq(all.take(i as int)),
        decreases ls@.len() - i,
    {
        let ghost done = row_texts(rows@);
        assert(all.take(i + 1).drop_last() =~= all.take(i as int));
        let trimmed_line = trim(ls[i].as_str());
        if !trimmed_line.is_empty() && !is_ascii_border(trimmed_line) {
            let v = chars_of(trimmed_line);
            if v[0] == '|' && v[v.len() - 1] == '|' {
                let cells = split_table_cells(trimmed_line);
                let ghost c = texts(cells@);
                rows.push(cells);
                assert(row_texts(rows@) =~= done.push(c));
            }
        }
        i += 1;
    }
    assert(all.take(i as int) =~= all);
    if rows.len() < 2 {
        return None;
    }
    let ghost full = row_texts(rows@);
    let headers = rows.remove(0);
    assert(row_texts(rows@) =~= full.skip(1));
    let t = ParsedTable { headers, rows };
    Some(t)
}

/// The contents of a list of names.
pub open spec fn labels(names: Seq<&str>) -> Seq<Seq<char>> {
    names.map_values(|n: &str| n@)
}

/// Whether `header` is, but for case and white space around it, one of `names`.
pub open spec fn is_named(header: Seq<char>, names: Seq<Seq<char>>) -> bool {
    names.contains(lowered(trimmed(header)))
}

/// The first position, from `from` on, of a header that is one of `names`.
pub open spec fn column_from(
    headers: Seq<Seq<char>>,
    names: Seq<Seq<char>>,
    from: int,
) -> Option<int>
    decreases headers.len() - from,
{
    if from >= headers.len() {
        None
    } else if is_named(headers[from], names) {
        Some(from)
    } else {
        column_from(headers, names, from + 1)
    }
}

/// The position of the first header that is one of `names`.
pub open spec fn column(headers: Seq<Seq<char>>, names: Seq<Seq<char>>) -> Option<int> {
    column_from(headers, names, 0)
}

/// An optional position as a number.
pub open spec fn position(idx: Option<usize>) -> Option<int> {
    match idx {
        Some(i) => Some(i as int),
        None => None,
    }
}

/// Finds the first of `headers` that is one of `names`, which are in lower case.
pub fn find_column(headers: &[String], names: &[&str]) -> (r: Option<usize>)
    ensures
        position(r) == column(texts(headers@), labels(names@)),
{
    let mut i: usize = 0;
    while i < headers.len()
        invariant
            i <= headers@.len(),
            column(texts(headers@), labels(names@)) == column_from(
                texts(headers@),
                labels(names@),
                i as int,
            ),
        decreases headers@.len() - i,
    {
        let normalized = to_ascii_lowercase(trim(headers[i].as_str()));
        let mut k: usize = 0;
        while k < names.len()
            invariant
                k <= names@.len(),
                i < headers@.len(),
                normalized@ == lowered(trimmed(texts(headers@)[i as int])),
                column(texts(headers@), labels(names@)) == column_from(
                    texts(headers@),
                    labels(names@),
                    i as int,
                ),
                forall|j: int| 0 <= j < k ==> #[trigger] labels(names@)[j] != normalized@,
            decreases names@.len() - k,
        {
            if same(normalized.as_str(), names[k]) {
                assert(labels(names@)[k as int] == normalized@);
                return Some(i);
            }
            k += 1;
        }
        i += 1;
    }
    None
}

/// The cell of `row` at `idx`, without white space at either end.
pub open spec fn cell_at(row: Seq<Seq<char>>, idx: Option<int>) -> Option<Seq<char>> {
    match idx {
        Some(i) if 0 <= i < row.len() => Some(trimmed(row[i])),
        _ => None,
    }
}

/// The cell of `row` at `idx`, or nothing where the row has no such cell.
pub open spec fn cell_or_empty(row: Seq<Seq<char>>, idx: Option<int>) -> Seq<char> {
    match cell_at(row, idx) {
        Some(c) => c,
        None => Seq::empty(),
    }
}

/// The cell of `row` at `idx`, if the row has one.
pub fn cell<'a>(row: &'a [String], idx: Option<usize>) -> (r: Option<&'a str>)
    ensures
        match r {
            Some(c) => cell_at(texts(row@), position(idx)) == Some(c@),
            None => cell_at(texts(row@), position(idx)) is None,
        },
{
    match idx {
        Some(i) => {
            if i < row.len() {
                Some(trim(row[i].as_str()))
            } else {
                None
            }
        },
        None => None,
    }
}

/// The cell of `row` at `idx`, or an empty one.
pub fn cell_or_default<'a>(row: &'a [String], idx: Option<usize>) -> (r: &'a str)
    ensures
        r@ == cell_or_empty(texts(row@), position(idx)),
{
    match cell(row, idx) {
        Some(c) => c,
        None => {
            proof {
                reveal_strlit("");
            }
            assert(""@ =~= Seq::<char>::empty());
            ""
        },
    }
}

/// Every row of `rows` with its cells parted by tabs.
pub open spec fn tabbed(rows: Seq<Seq<Seq<char>>>) -> Seq<Seq<char>> {
    rows.map_values(|r: Seq<Seq<char>>| joined(r, "\t"@))
}

/// The lines that stand for a table: how many rows it has, its headers, and up
/// to `max_rows` of its rows.
pub open spec fn compact_table_lines(label: Seq<char>, t: Grid, max_rows: nat) -> Seq<Seq<char>> {
    seq![label + ": "@ + decimal(t.rows.len()) + " rows"@, joined(t.headers, "\t"@)] + capped(
        tabbed(t.rows),
        max_rows,
        "... +"@,
        " more rows"@,
    )
}

/// The text that stands for a table.
pub open spec fn compact_table(label: Seq<char>, t: Grid, max_rows: nat) -> Seq<char> {
    joined(compact_table_lines(label, t, max_rows), "\n"@)
}

/// Writes a table with its cells parted by tabs, up to `max_rows` rows of it.
pub fn format_compact_table(label: &str, table: &ParsedTable, max_rows: usize) -> (r: String)
    ensures
        r@ == compact_table(label@, table@, max_rows as nat),
{
    let mut out: Vec<String> = Vec::new();
    let mut head = label.to_owned();
    head.append(": ");
    head.append(to_decimal(table.rows.len()).as_str());
    head.append(" rows");
    push_line(&mut out, head);
    push_line(&mut out, join(table.headers.as_slice(), "\t"));
    let mut rows: Vec<String> = Vec::new();
    let ghost all = row_texts(table.rows@);
    let mut i: usize = 0;
    while i < table.rows.len()
        invariant
            i <= table.rows@.len(),
            all == row_texts(table.rows@),
            texts(rows@) == tabbed(all.take(i as int)),
        decreases table.rows@.len() - i,
    {
        push_line(&mut rows, join(table.rows[i].as_slice(), "\t"));
        i += 1;
        assert(texts(rows@) =~= tabbed(all.take(i as int)));
    }
    assert(all.take(i as int) =~= all);
    push_capped(&mut out, rows.as_slice(), max_rows, "... +", " more rows");
    assert(texts(out@) =~= compact_table_lines(label@, table@, max_rows as nat));
    join(out.as_slice(), "\n")
}

/// A border is no row.
pub proof fn law_borders_are_no_rows(line: Seq<char>)
    requires
        is_border(trimmed(line)),
    ensures
        !is_row(line),
{
    assert(is_border_char(trimmed(line)[0]));
}

/// A line is a border exactly when it has three characters or more, all of them
/// drawn from those of a border, and one of them a `-` or a `=`.
pub proof fn law_borders(line: Seq<char>)
    ensures
        is_border(line) <==> {
            &&& line.len() >= 3
            &&& forall|i: int| 0 <= i < line.len() ==> "+-= :"@.contains(#[trigger] line[i])
            &&& exists|i: int| 0 <= i < line.len() && (#[trigger] line[i] == '-' || line[i] == '=')
        },
{
    reveal_strlit("+-= :");
    let all = "+-= :"@;
    assert(all[0] == '+' && all[1] == '-' && all[2] == '=' && all[3] == ' ' && all[4] == ':');
    assert forall|c: char| all.contains(c) <==> #[trigger] is_border_char(c) by {
        if is_border_char(c) {
            assert(all[0] == c || all[1] == c || all[2] == c || all[3] == c || all[4] == c);
        }
    }
    if is_border(line) {
        assert forall|i: int| 0 <= i < line.len() implies all.contains(#[trigger] line[i]) by {
            assert(is_border_char(line[i]));
        }
    }
}

/// There is a table exactly when two lines or more begin and end with `|`, but
/// for white space around them. The first of them holds the headers, and each of
/// the others is a row.
pub proof fn law_table(output: Seq<char>, rows: Seq<Seq<char>>)
    requires
        rows == line_seq(output).filter(
            |l: Seq<char>|
                trimmed(l).len() > 0 && trimmed(l).first() == '|' && trimmed(l).last() == '|',
        ),
    ensures
        table_of(output) is Some <==> rows.len() >= 2,
        table_of(output) matches Some(t) ==> {
            &&& t.headers == cell_seq(rows[0])
            &&& t.rows.len() == rows.len() - 1
            &&& forall|i: int| 0 <= i < t.rows.len() ==> #[trigger] t.rows[i] == cell_seq(
                rows[i + 1],
            )
        },
{
    lemma_row_seq(line_seq(output));
    let all = line_seq(output);
    let keep = |l: Seq<char>|
        trimmed(l).len() > 0 && trimmed(l).first() == '|' && trimmed(l).last() == '|';
    assert(all.filter(keep) == rows);
    assert(keep =~= |l: Seq<char>| is_row(l));
    assert(row_seq(all).len() == rows.len());
    assert forall|i: int| 0 <= i < rows.len() implies #[trigger] row_seq(all)[i] == cell_seq(
        rows[i],
    ) by {}
}

proof fn lemma_row_seq(lines: Seq<Seq<char>>)
    ensures
        row_seq(lines).len() == lines.filter(|l: Seq<char>| is_row(l)).len(),
        forall|i: int|
            0 <= i < row_seq(lines).len() ==> #[trigger] row_seq(lines)[i] == cell_seq(
                lines.filter(|l: Seq<char>| is_row(l))[i],
            ),
    decreases lines.len(),
{
    reveal(Seq::filter);
    if lines.len() > 0 {
        lemma_row_seq(lines.drop_last());
        law_trim_idempotent(lines.last(), Pattern::WhiteSpace);
    }
}

/// A column is the first whose header, but for case and white space around it, is
/// one of the names; there is none where no header is.
pub proof fn law_column(headers: Seq<Seq<char>>, names: Seq<Seq<char>>)
    ensures
        match column(headers, names) {
            Some(i) => {
                &&& 0 <= i < headers.len()
                &&& names.contains(lowered(trimmed(headers[i])))
                &&& forall|j: int|
                    0 <= j < i ==> !names.contains(lowered(trimmed(#[trigger] headers[j])))
            },
            None => forall|j: int|
                0 <= j < headers.len() ==> !names.contains(lowered(trimmed(#[trigger] headers[j]))),
        },
{
    lemma_column_from(headers, names, 0);
}

proof fn lemma_column_from(headers: Seq<Seq<char>>, names: Seq<Seq<char>>, from: int)
    requires
        0 <= from,
    ensures
        match column_from(headers, names, from) {
            Some(i) => {
                &&& from <= i < headers.len()
                &&& is_named(headers[i], names)
                &&& forall|j: int| from <= j < i ==> !is_named(#[trigger] headers[j], names)
            },
            None => forall|j: int|
                from <= j < headers.len() ==> !is_named(#[trigger] headers[j], names),
        },
    decreases headers.len() - from,
{
    if from < headers.len() && !is_named(headers[from], names) {
        lemma_column_from(headers, names, from + 1);
    }
}

/// A cell is what stands in the row at its column, without white space around it;
/// nothing where the row is too short or there is no such column.
pub proof fn law_cell(row: Seq<Seq<char>>, i: int)
    ensures
        0 <= i < row.len() ==> cell_at(row, Some(i)) == Some(trimmed(row[i])) && cell_or_empty(
            row,
            Some(i),
        ) == trimmed(row[i]),
        i >= row.len() ==> cell_at(row, Some(i)) is None && cell_or_empty(row, Some(i)).len() == 0,
        cell_at(row, None) is None,
        cell_or_empty(row, None).len() == 0,
{
}

/// A table is shown as the number of its rows, its headers, and its rows up to the
/// limit, each with tabs between the cells. Where rows are left out, the last line
/// counts them.
pub proof fn law_compact_table(label: Seq<char>, t: Grid, max_rows: nat) -> (shown: Seq<Seq<char>>)
    ensures
        compact_table(label, t, max_rows) == joined(shown, "\n"@),
        shown.len() == 2 + (if t.rows.len() <= max_rows {
            t.rows.len()
        } else {
            max_rows + 1
        }),
        shown[0] == label + ": "@ + decimal(t.rows.len()) + " rows"@,
        shown[1] == joined(t.headers, "\t"@),
        forall|i: int|
            0 <= i < t.rows.len() && i < max_rows ==> shown[i + 2] == joined(
                #[trigger] t.rows[i],
                "\t"@,
            ),
        t.rows.len() > max_rows ==> shown.last() == "... +"@ + decimal(
            (t.rows.len() - max_rows) as nat,
        ) + " more rows"@,
{
    compact_table_lines(label, t, max_rows)
}

} // verus!

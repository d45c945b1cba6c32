//! What `artisan` draws is read back as it was.
use vstd::prelude::*;
use crate::fields::{dotted, KeyValue};
use crate::routes::{is_http_method, route_line, without_dots, RouteLine};
use crate::table::{
    cell_seq, is_border, is_border_char, is_row, is_separator, row_inner, row_seq, separators,
    table_of, Grid,
};
use crate::text::{
    first_from, is_space, joined, lemma_first_from, occurs_at, occurs_in, pieces, trimmed,
    trimmed_back, trimmed_front, Pattern,
};
use crate::text_laws::{
    is_word, law_join_then_lines, law_spaced_words_are_read_back, law_trimmed, law_trimmed_ends,
    law_trimmed_kept, law_trimmed_stands_in, law_trimmed_words, lemma_pieces_append,
    lemma_pieces_whole, no_cuts, spaced, spaces,
};

verus! {

/// How many spaces stand on the one side and on the other.
pub type Pad = (nat, nat);

/// `cell` with spaces before and after it.
pub open spec fn padded(cell: Seq<char>, pad: Pad) -> Seq<char> {
    spaces(pad.0) + cell + spaces(pad.1)
}

/// Every cell with its spaces.
pub open spec fn padded_each(cells: Seq<Seq<char>>, pads: Seq<Pad>) -> Seq<Seq<char>> {
    Seq::new(cells.len(), |i: int| padded(cells[i], pads[i]))
}

/// Whether `pads` has, for each of `n` cells, a space or more on either side.
pub open spec fn pads_fit(pads: Seq<Pad>, n: nat) -> bool {
    pads.len() == n && forall|i: int|
        0 <= i < n ==> (#[trigger] pads[i]).0 > 0 && pads[i].1 > 0
}

/// A row as it is drawn.
pub open spec fn drawn_row(cells: Seq<Seq<char>>, pads: Seq<Pad>) -> Seq<char> {
    seq!['|'] + joined(padded_each(cells, pads), seq!['|']) + seq!['|']
}

/// Whether `cell` can be told apart in a drawn row: it has no white space at
/// either end, and no `|` in it stands by itself.
pub open spec fn is_drawable(cell: Seq<char>) -> bool {
    &&& trimmed(cell) == cell
    &&& forall|i: int|
        0 <= i < cell.len() && #[trigger] cell[i] == '|' ==> (i > 0 && !is_space(cell[i - 1])) || (i
            + 1 < cell.len() && !is_space(cell[i + 1]))
}

/// A row is cut into cells at every `|` between its outer ones that has white
/// space on both sides, and at no other; and the cells are what stands between,
/// without white space at either end.
pub proof fn law_row_is_cut(
    raw: Seq<Seq<char>>,
    a: Seq<char>,
    front: Seq<char>,
    back: Seq<char>,
    b: Seq<char>,
)
    requires
        raw.len() > 0,
        forall|i: int|
            0 <= i < raw.len() && (#[trigger] raw[i]).len() > 0 ==> raw[i].first() != '|'
                && raw[i].last() != '|',
        forall|i: int|
            0 <= i < raw.len() - 1 ==> (#[trigger] raw[i]).len() > 0 && is_space(raw[i].last()),
        forall|i: int|
            1 <= i < raw.len() ==> (#[trigger] raw[i]).len() > 0 && is_space(raw[i].first()),
        forall|i: int, j: int|
            0 <= i < raw.len() && 0 < j < raw[i].len() - 1 && #[trigger] raw[i][j] == '|'
                ==> !is_space(raw[i][j - 1]) || !is_space(raw[i][j + 1]),
        raw.len() == 1 && raw[0].len() == 0 || front.len() > 0 || (raw[0].len() > 0 && !is_space(
            raw[0].first(),
        )),
        raw.len() == 1 && raw[0].len() == 0 || back.len() > 0 || (raw.last().len() > 0 && !is_space(
            raw.last().last(),
        )),
        forall|i: int| 0 <= i < front.len() ==> #[trigger] front[i] == '|',
        forall|i: int| 0 <= i < back.len() ==> #[trigger] back[i] == '|',
        forall|i: int| 0 <= i < a.len() ==> is_space(#[trigger] a[i]),
        forall|i: int| 0 <= i < b.len() ==> is_space(#[trigger] b[i]),
    ensures
        cell_seq(a + front + joined(raw, seq!['|']) + back + b).len() == raw.len(),
        forall|i: int|
            0 <= i < raw.len() ==> cell_seq(a + front + joined(raw, seq!['|']) + back + b)[i]
                == trimmed(#[trigger] raw[i]),
{
    let inner = joined(raw, seq!['|']);
    let t = front + inner + back;
    let line = a + front + inner + back + b;
    lemma_cut(raw);
    assert(line =~= a + t + b);
    if t.len() > 0 {
        assert(t.first() == (if front.len() > 0 {
            front[0]
        } else if inner.len() > 0 {
            inner[0]
        } else {
            back[0]
        }));
        assert(t.last() == (if back.len() > 0 {
            back[back.len() - 1]
        } else if inner.len() > 0 {
            inner[inner.len() - 1]
        } else {
            front[front.len() - 1]
        }));
    }
    law_trimmed(a, t, b, Pattern::WhiteSpace);
    law_trimmed(front, inner, back, Pattern::Char('|'));
    assert(row_inner(line) == inner);
}

proof fn lemma_cut(raw: Seq<Seq<char>>)
    requires
        raw.len() > 0,
        forall|i: int|
            0 <= i < raw.len() && (#[trigger] raw[i]).len() > 0 ==> raw[i].first() != '|'
                && raw[i].last() != '|',
        forall|i: int|
            0 <= i < raw.len() - 1 ==> (#[trigger] raw[i]).len() > 0 && is_space(raw[i].last()),
        forall|i: int|
            1 <= i < raw.len() ==> (#[trigger] raw[i]).len() > 0 && is_space(raw[i].first()),
        forall|i: int, j: int|
            0 <= i < raw.len() && 0 < j < raw[i].len() - 1 && #[trigger] raw[i][j] == '|'
                ==> !is_space(raw[i][j - 1]) || !is_space(raw[i][j + 1]),
    ensures
        joined(raw, seq!['|']).len() >= raw.last().len(),
        joined(raw, seq!['|']).len() > 0 ==> raw[0].len() > 0 && joined(raw, seq!['|']).first()
            == raw[0].first() && raw.last().len() > 0 && joined(raw, seq!['|']).last()
            == raw.last().last(),
        pieces(joined(raw, seq!['|']), separators(joined(raw, seq!['|']))) == raw,
    decreases raw.len(),
{
    let all = joined(raw, seq!['|']);
    let last = raw.last();
    let n = raw.len() - 1;
    assert(raw[n] == last);
    assert forall|j: int| 0 <= j < last.len() implies !#[trigger] is_separator(last, j) by {
        assert(raw[n][j] == last[j]);
    }
    assert(separators(last) =~= no_cuts(last.len()));
    if raw.len() == 1 {
        assert(all == last);
        lemma_pieces_whole(last);
        assert(raw =~= seq![last]);
    } else {
        let d = raw.drop_last();
        let s = joined(d, seq!['|']);
        assert forall|i: int| 0 <= i < d.len() && (#[trigger] d[i]).len() > 0 implies d[i].first()
            != '|' && d[i].last() != '|' by {
            assert(d[i] == raw[i]);
        }
        assert forall|i: int| 0 <= i < d.len() implies (#[trigger] d[i]).len() > 0 && is_space(
            d[i].last(),
        ) by {
            assert(d[i] == raw[i]);
        }
        assert forall|i: int| 1 <= i < d.len() implies (#[trigger] d[i]).len() > 0 && is_space(
            d[i].first(),
        ) by {
            assert(d[i] == raw[i]);
        }
        assert forall|i: int, j: int|
            0 <= i < d.len() && 0 < j < d[i].len() - 1 && #[trigger] d[i][j] == '|' implies
            !is_space(d[i][j - 1]) || !is_space(d[i][j + 1]) by {
            assert(raw[i][j] == d[i][j]);
        }
        lemma_cut(d);
        assert(d[d.len() - 1].len() > 0 && is_space(d[d.len() - 1].last()));
        assert(all == s + seq!['|'] + last);
        let cuts = separators(s) + seq![true] + no_cuts(last.len());
        assert forall|i: int| 0 <= i < all.len() implies #[trigger] separators(all)[i]
            == cuts[i] by {
            if i < s.len() {
                assert(separators(s)[i] == is_separator(s, i));
            } else if i > s.len() {
                let j = i - s.len() - 1;
                assert(separators(last)[j] == is_separator(last, j));
            }
        }
        assert(separators(all) =~= cuts);
        lemma_pieces_append(s, separators(s), '|', last);
        assert(raw =~= d.push(last));
    }
}

/// The cells of a drawn row are read back as they were, the `|` inside their
/// words with them, however wide the columns are drawn.
pub proof fn law_drawn_row_is_read_back(cells: Seq<Seq<char>>, pads: Seq<Pad>)
    requires
        cells.len() > 0,
        pads_fit(pads, cells.len()),
        forall|i: int| 0 <= i < cells.len() ==> is_drawable(#[trigger] cells[i]),
    ensures
        is_row(drawn_row(cells, pads)),
        trimmed(drawn_row(cells, pads)) == drawn_row(cells, pads),
        cell_seq(drawn_row(cells, pads)) == cells,
{
    let raw = padded_each(cells, pads);
    let row = drawn_row(cells, pads);
    let none: Seq<char> = Seq::empty();
    assert forall|i: int| 0 <= i < cells.len() implies {
        let s = #[trigger] raw[i];
        &&& s.len() > 0
        &&& s.first() == ' ' && s.last() == ' '
        &&& trimmed(s) == cells[i]
        &&& forall|j: int|
            0 < j < s.len() - 1 && #[trigger] s[j] == '|' ==> !is_space(s[j - 1]) || !is_space(
                s[j + 1],
            )
    } by {
        assert(is_drawable(cells[i]));
        assert(pads[i].0 > 0 && pads[i].1 > 0);
        lemma_padded_trimmed(cells[i], pads[i]);
        lemma_padded_uncut(cells[i], pads[i]);
    }
    assert forall|i: int, j: int|
        0 <= i < raw.len() && 0 < j < raw[i].len() - 1 && #[trigger] raw[i][j] == '|' implies
        !is_space(raw[i][j - 1]) || !is_space(raw[i][j + 1]) by {
        let s = raw[i];
        assert(s[j] == '|');
    }
    law_row_is_cut(raw, none, seq!['|'], seq!['|'], none);
    assert(row =~= none + seq!['|'] + joined(raw, seq!['|']) + seq!['|'] + none);
    assert(row.first() == '|' && row.last() == '|');
    law_trimmed_kept(row, Pattern::WhiteSpace);
    assert forall|i: int| 0 <= i < cells.len() implies cell_seq(row)[i] == cells[i] by {
        assert(raw[i] == padded(cells[i], pads[i]));
    }
    assert(cell_seq(row) =~= cells);
}

/// Trimming takes spaces off the front.
proof fn lemma_spaces_trimmed_front(n: nat, s: Seq<char>)
    ensures
        trimmed_front(spaces(n) + s, Pattern::WhiteSpace) == trimmed_front(s, Pattern::WhiteSpace),
    decreases n,
{
    let all = spaces(n) + s;
    if n == 0 {
        assert(all =~= s);
    } else {
        let m = (n - 1) as nat;
        lemma_spaces_trimmed_front(m, s);
        assert(all.drop_first() =~= spaces(m) + s);
        assert(all.first() == ' ');
    }
}

/// Trimming takes spaces off the back.
proof fn lemma_spaces_trimmed_back(s: Seq<char>, n: nat)
    ensures
        trimmed_back(s + spaces(n), Pattern::WhiteSpace) == trimmed_back(s, Pattern::WhiteSpace),
    decreases n,
{
    let all = s + spaces(n);
    if n == 0 {
        assert(all =~= s);
    } else {
        let m = (n - 1) as nat;
        lemma_spaces_trimmed_back(s, m);
        assert(all.drop_last() =~= s + spaces(m));
        assert(all.last() == ' ');
    }
}

/// Trimming takes the spaces around a cell off.
proof fn lemma_padded_trimmed(cell: Seq<char>, pad: Pad)
    requires
        trimmed(cell) == cell,
    ensures
        trimmed(padded(cell, pad)) == cell,
{
    let p = Pattern::WhiteSpace;
    let rest = cell + spaces(pad.1);
    law_trimmed_ends(cell, p);
    assert(padded(cell, pad) =~= spaces(pad.0) + rest);
    lemma_spaces_trimmed_front(pad.0, rest);
    lemma_spaces_trimmed_back(cell, pad.1);
    if cell.len() == 0 {
        lemma_spaces_trimmed_front(pad.1, cell);
        assert(rest =~= spaces(pad.1) + cell);
        assert(trimmed_front(cell, p) == cell);
    } else {
        assert(rest.first() == cell.first());
        assert(trimmed_front(rest, p) == rest);
    }
    assert(trimmed_back(cell, p) == cell);
}

/// No `|` of a cell stands by itself when spaces stand around the cell.
proof fn lemma_padded_uncut(cell: Seq<char>, pad: Pad)
    requires
        is_drawable(cell),
        pad.0 > 0,
        pad.1 > 0,
    ensures
        ({
            let s = padded(cell, pad);
            forall|j: int|
                0 < j < s.len() - 1 && #[trigger] s[j] == '|' ==> !is_space(s[j - 1]) || !is_space(
                    s[j + 1],
                )
        }),
{
    let s = padded(cell, pad);
    assert forall|j: int| 0 < j < s.len() - 1 && #[trigger] s[j] == '|' implies !is_space(s[j - 1])
        || !is_space(s[j + 1]) by {
        let i = j - pad.0;
        if 0 <= i < cell.len() {
            assert(s[j] == cell[i]);
            if i > 0 {
                assert(s[j - 1] == cell[i - 1]);
            }
            if i + 1 < cell.len() {
                assert(s[j + 1] == cell[i + 1]);
            }
        } else {
            assert(s[j] == ' ');
        }
    }
}

/// The rows of two lists of lines follow one another.
proof fn lemma_row_seq_add(a: Seq<Seq<char>>, b: Seq<Seq<char>>)
    ensures
        row_seq(a + b) == row_seq(a) + row_seq(b),
    decreases b.len(),
{
    if b.len() == 0 {
        assert(a + b =~= a);
        assert(row_seq(a) + row_seq(b) =~= row_seq(a));
    } else {
        lemma_row_seq_add(a, b.drop_last());
        assert((a + b).drop_last() =~= a + b.drop_last());
        assert(row_seq(a + b) =~= row_seq(a) + row_seq(b));
    }
}

/// What one line adds to the rows.
proof fn lemma_row_seq_one(line: Seq<char>)
    ensures
        row_seq(seq![line]) == (if is_row(line) {
            seq![cell_seq(trimmed(line))]
        } else {
            Seq::empty()
        }),
{
    let none: Seq<Seq<char>> = Seq::empty();
    assert(seq![line].drop_last() =~= none);
    assert(row_seq(none) =~= Seq::empty());
    assert(row_seq(seq![line]) =~= (if is_row(line) {
        seq![cell_seq(trimmed(line))]
    } else {
        Seq::empty()
    }));
}

/// Whether `line` is one line: it holds no line feed, and its end is not taken
/// for part of one.
pub open spec fn is_whole_line(line: Seq<char>) -> bool {
    &&& forall|j: int| 0 <= j < line.len() ==> #[trigger] line[j] != '\n'
    &&& line.len() > 0 ==> line.last() != '\r'
}

/// Whether `line` is a line that is no row of a table.
pub open spec fn is_plain_line(line: Seq<char>) -> bool {
    is_whole_line(line) && !is_row(line)
}

/// Borders and empty lines are no rows.
pub proof fn law_borders_are_plain_lines(line: Seq<char>)
    requires
        is_border(line) || line.len() == 0,
    ensures
        is_plain_line(line),
{
    let from = law_trimmed_stands_in(line, Pattern::WhiteSpace);
    if trimmed(line).len() > 0 {
        assert(is_border_char(line[from]));
    }
    assert forall|j: int| 0 <= j < line.len() implies #[trigger] line[j] != '\n' by {
        assert(is_border_char(line[j]));
    }
    if line.len() > 0 {
        assert(is_border_char(line[line.len() - 1]));
    }
}

/// Whether every one of `lines` is no row of a table.
pub open spec fn are_plain_lines(lines: Seq<Seq<char>>) -> bool {
    forall|i: int| 0 <= i < lines.len() ==> is_plain_line(#[trigger] lines[i])
}

/// Lines that are no rows hold no cells.
proof fn lemma_plain_lines(lines: Seq<Seq<char>>)
    requires
        are_plain_lines(lines),
    ensures
        row_seq(lines) == Seq::<Seq<Seq<char>>>::empty(),
    decreases lines.len(),
{
    if lines.len() > 0 {
        let d = lines.drop_last();
        assert forall|i: int| 0 <= i < d.len() implies is_plain_line(#[trigger] d[i]) by {
            assert(d[i] == lines[i]);
        }
        lemma_plain_lines(d);
        assert(is_plain_line(lines[lines.len() - 1]));
    }
}

/// Whether a row can be drawn: it has cells, all of them can be told apart, and
/// none of them holds a line feed.
pub open spec fn is_drawable_row(cells: Seq<Seq<char>>, pads: Seq<Pad>) -> bool {
    &&& cells.len() > 0
    &&& pads_fit(pads, cells.len())
    &&& forall|i: int| 0 <= i < cells.len() ==> is_drawable(#[trigger] cells[i])
    &&& forall|i: int, j: int|
        0 <= i < cells.len() && 0 <= j < cells[i].len() ==> #[trigger] cells[i][j] != '\n'
}

/// Whether each of `rows` can be drawn.
pub open spec fn are_drawable_rows(rows: Seq<Seq<Seq<char>>>, pads: Seq<Seq<Pad>>) -> bool {
    pads.len() == rows.len() && forall|i: int|
        0 <= i < rows.len() ==> is_drawable_row(#[trigger] rows[i], pads[i])
}

/// Every row as it is drawn.
pub open spec fn drawn_rows(rows: Seq<Seq<Seq<char>>>, pads: Seq<Seq<Pad>>) -> Seq<Seq<char>> {
    Seq::new(rows.len(), |i: int| drawn_row(rows[i], pads[i]))
}

/// How a table is drawn: the spaces around its cells, and the lines above the
/// headers, below them, and below the rows.
pub struct Drawing {
    pub head_pads: Seq<Pad>,
    pub row_pads: Seq<Seq<Pad>>,
    pub above: Seq<Seq<char>>,
    pub between: Seq<Seq<char>>,
    pub below: Seq<Seq<char>>,
}

/// Whether `t` can be drawn as `d` says.
pub open spec fn fits(t: Grid, d: Drawing) -> bool {
    &&& is_drawable_row(t.headers, d.head_pads)
    &&& are_drawable_rows(t.rows, d.row_pads)
    &&& are_plain_lines(d.above)
    &&& are_plain_lines(d.between)
    &&& are_plain_lines(d.below)
}

/// The lines of a table as it is drawn.
pub open spec fn drawn_lines(t: Grid, d: Drawing) -> Seq<Seq<char>> {
    d.above + seq![drawn_row(t.headers, d.head_pads)] + d.between + drawn_rows(t.rows, d.row_pads)
        + d.below
}

/// A drawn row takes one line.
proof fn lemma_drawn_row_is_flat(cells: Seq<Seq<char>>, pads: Seq<Pad>)
    requires
        is_drawable_row(cells, pads),
    ensures
        forall|j: int|
            0 <= j < drawn_row(cells, pads).len() ==> #[trigger] drawn_row(cells, pads)[j] != '\n',
{
    lemma_padded_joined_is_flat(cells, pads);
    let row = drawn_row(cells, pads);
    let inner = joined(padded_each(cells, pads), seq!['|']);
    assert forall|j: int| 0 <= j < row.len() implies #[trigger] row[j] != '\n' by {
        if 0 < j <= inner.len() {
            assert(inner[j - 1] != '\n');
        }
    }
}

proof fn lemma_padded_joined_is_flat(cells: Seq<Seq<char>>, pads: Seq<Pad>)
    requires
        pads.len() == cells.len(),
        forall|i: int, j: int|
            0 <= i < cells.len() && 0 <= j < cells[i].len() ==> #[trigger] cells[i][j] != '\n',
    ensures
        forall|j: int|
            0 <= j < joined(padded_each(cells, pads), seq!['|']).len() ==> #[trigger] joined(
                padded_each(cells, pads),
                seq!['|'],
            )[j] != '\n',
    decreases cells.len(),
{
    if cells.len() > 0 {
        let d = cells.drop_last();
        let e = pads.drop_last();
        let last = padded(cells.last(), pads.last());
        assert(padded_each(cells, pads).drop_last() =~= padded_each(d, e));
        assert forall|i: int, j: int| 0 <= i < d.len() && 0 <= j < d[i].len() implies
            #[trigger] d[i][j] != '\n' by {
            assert(d[i][j] == cells[i][j]);
        }
        lemma_padded_joined_is_flat(d, e);
        assert forall|j: int| 0 <= j < last.len() implies #[trigger] last[j] != '\n' by {
            let k = j - pads.last().0;
            if 0 <= k < cells.last().len() {
                assert(last[j] == cells[cells.len() - 1][k]);
            } else {
                assert(last[j] == ' ');
            }
        }
        let before = joined(padded_each(d, e), seq!['|']);
        let all = joined(padded_each(cells, pads), seq!['|']);
        assert(all == (if cells.len() == 1 {
            last
        } else {
            before + seq!['|'] + last
        }));
        assert forall|j: int| 0 <= j < all.len() implies #[trigger] all[j] != '\n' by {
            if cells.len() > 1 && j < before.len() {
                assert(before[j] != '\n');
            } else if cells.len() > 1 && j > before.len() {
                assert(last[j - before.len() - 1] != '\n');
            } else if cells.len() == 1 {
                assert(last[j] != '\n');
            }
        }
    }
}

/// The rows of drawn rows are the rows.
proof fn lemma_drawn_rows(rows: Seq<Seq<Seq<char>>>, pads: Seq<Seq<Pad>>)
    requires
        are_drawable_rows(rows, pads),
    ensures
        row_seq(drawn_rows(rows, pads)) == rows,
    decreases rows.len(),
{
    if rows.len() == 0 {
        assert(row_seq(drawn_rows(rows, pads)) =~= rows);
    } else {
        let d = rows.drop_last();
        let e = pads.drop_last();
        assert forall|i: int| 0 <= i < d.len() implies is_drawable_row(#[trigger] d[i], e[i]) by {
            assert(d[i] == rows[i] && e[i] == pads[i]);
        }
        lemma_drawn_rows(d, e);
        assert(is_drawable_row(rows[rows.len() - 1], pads[rows.len() - 1]));
        law_drawn_row_is_read_back(rows.last(), pads.last());
        assert(drawn_rows(rows, pads).drop_last() =~= drawn_rows(d, e));
        assert(d.push(rows.last()) =~= rows);
    }
}

/// The lines of a drawn table are lines.
proof fn lemma_drawn_lines(t: Grid, d: Drawing)
    requires
        fits(t, d),
    ensures
        forall|i: int|
            0 <= i < drawn_lines(t, d).len() ==> is_whole_line(#[trigger] drawn_lines(t, d)[i]),
{
    let all = drawn_lines(t, d);
    let rows = drawn_rows(t.rows, d.row_pads);
    let a = d.above.len() as int;
    let b = a + 1 + d.between.len();
    let c = b + rows.len();
    assert forall|i: int| 0 <= i < all.len() implies is_whole_line(#[trigger] all[i]) by {
        if i < a {
            assert(is_plain_line(d.above[i]));
        } else if i == a {
            lemma_drawn_row_is_flat(t.headers, d.head_pads);
        } else if i < b {
            assert(is_plain_line(d.between[i - a - 1]));
        } else if i < c {
            assert(is_drawable_row(t.rows[i - b], d.row_pads[i - b]));
            lemma_drawn_row_is_flat(t.rows[i - b], d.row_pads[i - b]);
            assert(all[i] == rows[i - b]);
        } else {
            assert(is_plain_line(d.below[i - c]));
        }
    }
}

/// A drawn table is read back as it was, however wide its columns are drawn and
/// whatever borders and other lines stand around its headers and its rows.
pub proof fn law_drawn_table_is_read_back(t: Grid, d: Drawing)
    requires
        t.rows.len() > 0,
        fits(t, d),
    ensures
        table_of(joined(drawn_lines(t, d), seq!['\n'])) == Some(t),
{
    let all = drawn_lines(t, d);
    let head = seq![drawn_row(t.headers, d.head_pads)];
    let rows = drawn_rows(t.rows, d.row_pads);
    lemma_drawn_lines(t, d);
    assert forall|i: int, j: int|
        0 <= i < all.len() && 0 <= j < all[i].len() implies #[trigger] all[i][j] != '\n' by {
        assert(is_whole_line(all[i]));
    }
    assert forall|i: int| 0 <= i < all.len() && all[i].len() > 0 implies (#[trigger] all[i]).last()
        != '\r' by {
        assert(is_whole_line(all[i]));
    }
    law_join_then_lines(all);
    lemma_plain_lines(d.above);
    lemma_plain_lines(d.between);
    lemma_plain_lines(d.below);
    law_drawn_row_is_read_back(t.headers, d.head_pads);
    lemma_row_seq_one(drawn_row(t.headers, d.head_pads));
    lemma_drawn_rows(t.rows, d.row_pads);
    lemma_row_seq_add(d.above, head);
    lemma_row_seq_add(d.above + head, d.between);
    lemma_row_seq_add(d.above + head + d.between, rows);
    lemma_row_seq_add(d.above + head + d.between + rows, d.below);
    assert(row_seq(all) =~= seq![t.headers] + t.rows);
    if all.last().len() == 0 {
        assert(!is_row(all.last()));
        assert(row_seq(all.drop_last()) == row_seq(all));
    }
    assert(row_seq(all).skip(1) =~= t.rows);
}

/// The method, the URI and the words after them, with any spaces between and
/// around them, are read back as they were, but for the words that are nothing
/// but dots.
pub proof fn law_route_line_is_read_back(
    method: Seq<char>,
    uri: Seq<char>,
    rest: Seq<Seq<char>>,
    lead: nat,
    gaps: Seq<nat>,
)
    requires
        is_http_method(method),
        is_word(method),
        is_word(uri),
        forall|i: int| 0 <= i < rest.len() ==> is_word(#[trigger] rest[i]),
        gaps.len() == rest.len() + 2,
        forall|i: int| 0 <= i < rest.len() + 1 ==> #[trigger] gaps[i] > 0,
    ensures
        route_line(spaced(seq![method, uri] + rest, lead, gaps)) == Some(
            RouteLine { method, uri, details: joined(without_dots(rest), " "@) },
        ),
{
    let words = seq![method, uri] + rest;
    assert forall|i: int| 0 <= i < words.len() implies is_word(#[trigger] words[i]) by {
        if i >= 2 {
            assert(is_word(rest[i - 2]));
        }
    }
    law_spaced_words_are_read_back(words, lead, gaps);
    law_trimmed_words(spaced(words, lead, gaps));
    assert(words.skip(2) =~= rest);
}

/// A key and a value as they are drawn, with dots between them and any spaces
/// around the dots.
pub open spec fn drawn_field(key: Seq<char>, dots: nat, pad: Pad, value: Seq<char>) -> Seq<char> {
    key + spaces(pad.0) + Seq::new(dots, |i: int| '.') + spaces(pad.1) + value
}

/// A key and a value with at least three dots between them are read back as they
/// were, where neither is empty or has white space at an end, the key holds no
/// three dots itself, and no dot of theirs touches the dots between them.
pub proof fn law_drawn_field_is_read_back(key: Seq<char>, dots: nat, pad: Pad, value: Seq<char>)
    requires
        dots >= 3,
        key.len() > 0,
        value.len() > 0,
        pad.0 > 0 || key.last() != '.',
        pad.1 > 0 || value.first() != '.',
        trimmed(key) == key,
        trimmed(value) == value,
        !occurs_in(key, "..."@),
    ensures
        dotted(drawn_field(key, dots, pad, value)) == Some(KeyValue { key, value }),
{
    reveal_strlit("...");
    let pat = "..."@;
    let line = drawn_field(key, dots, pad, value);
    let at = key.len() as int + pad.0;
    lemma_first_from(line, pat, 0);
    assert(occurs_at(line, pat, at)) by {
        assert(line.subrange(at, at + 3) =~= pat);
    }
    let i = first_from(line, pat, 0)->0;
    assert(i == at) by {
        if i < at {
            let found = line.subrange(i, i + 3);
            if i + 3 <= key.len() {
                assert(found =~= key.subrange(i, i + 3));
                assert(occurs_at(key, pat, i));
            } else {
                let k = if pad.0 == 0 {
                    key.len() - 1 - i
                } else if i < key.len() {
                    key.len() - i
                } else {
                    0
                };
                assert(found[k] == line[i + k]);
                assert(line[i + k] == (if pad.0 == 0 {
                    key.last()
                } else {
                    ' '
                }));
                assert(pat[k] == '.');
            }
        }
    }
    lemma_padded_trimmed(key, (0, pad.0));
    assert(line.take(at) =~= padded(key, (0, pad.0)));
    lemma_padded_trimmed(value, (pad.1, 0));
    let tail = padded(value, (pad.1, 0));
    assert(tail.first() == (if pad.1 == 0 {
        value.first()
    } else {
        ' '
    }));
    lemma_dots_trimmed(dots, tail);
    assert(line.skip(at) =~= Seq::new(dots, |i: int| '.') + tail);
}

/// Trimming dots takes a run of dots off.
proof fn lemma_dots_trimmed(dots: nat, tail: Seq<char>)
    requires
        tail.len() > 0,
        tail.first() != '.',
    ensures
        trimmed_front(Seq::new(dots, |i: int| '.') + tail, Pattern::Char('.')) == tail,
    decreases dots,
{
    let all = Seq::new(dots, |i: int| '.') + tail;
    if dots == 0 {
        assert(all =~= tail);
    } else {
        lemma_dots_trimmed((dots - 1) as nat, tail);
        assert(all.drop_first() =~= Seq::new((dots - 1) as nat, |i: int| '.') + tail);
    }
}

} // verus!

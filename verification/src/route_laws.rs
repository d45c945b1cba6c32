//! What `route:list` promises of its summaries.
use vstd::prelude::*;
use crate::report::{capped, law_capped};
use crate::routes::{
    all_dots, counts_note, entry_notes, is_http_method, is_method_name, labelled, lines_of,
    methods_of, route_columns, route_line, route_list, route_summary, route_summary_lines,
    summary_of, table_route, table_routes, text_route, text_routes, without_dots, Route,
    RouteColumns,
};
use crate::table::{cell_or_empty, column, is_row, row_seq, table_of, Grid};
use crate::tally::{entries_of, law_tally, lemma_entries_of, map_of, precedes, tally, Entries};
use crate::text::{
    decimal, is_space, joined, line_seq, split_seq, trimmed_back, trimmed_front, truncated,
    word_seq, Pattern,
};
use crate::text_laws::{
    is_word, law_join_then_lines, law_join_then_split, law_spaced_words_are_read_back,
    law_split_then_join, law_trimmed_words, lemma_split_nonempty, spaced, spaces,
};

verus! {

/// A text names HTTP methods exactly when it is made of one or more of the seven
/// names, with a `|` between one and the next.
pub proof fn law_http_methods(value: Seq<char>)
    ensures
        is_http_method(value) <==> exists|names: Seq<Seq<char>>|
            {
                &&& names.len() > 0
                &&& forall|i: int|
                    0 <= i < names.len() ==> (#[trigger] names[i] == "GET"@ || names[i] == "HEAD"@
                        || names[i] == "POST"@ || names[i] == "PUT"@ || names[i] == "PATCH"@
                        || names[i] == "DELETE"@ || names[i] == "OPTIONS"@)
                &&& value == #[trigger] joined(names, seq!['|'])
            },
{
    let p = Pattern::Char('|');
    if is_http_method(value) {
        let names = split_seq(value, p);
        lemma_split_nonempty(value, p);
        law_split_then_join(value, '|');
        assert forall|i: int| 0 <= i < names.len() implies is_method_name(#[trigger] names[i]) by {}
        assert(value == joined(names, seq!['|']));
    }
    assert forall|names: Seq<Seq<char>>|
        {
            &&& names.len() > 0
            &&& forall|i: int| 0 <= i < names.len() ==> is_method_name(#[trigger] names[i])
            &&& value == #[trigger] joined(names, seq!['|'])
        } implies is_http_method(value) by {
        assert forall|i: int, j: int|
            0 <= i < names.len() && 0 <= j < names[i].len() implies !p.accepts(
            #[trigger] names[i][j],
        ) by {
            assert(is_method_name(names[i]));
            lemma_method_letters(names[i]);
        }
        law_join_then_split(names, '|', p);
    }
}

proof fn lemma_method_letters(name: Seq<char>)
    requires
        is_method_name(name),
    ensures
        name.len() > 0,
        forall|j: int| 0 <= j < name.len() ==> 'A' <= #[trigger] name[j] <= 'Z',
{
    reveal_strlit("GET");
    reveal_strlit("HEAD");
    reveal_strlit("POST");
    reveal_strlit("PUT");
    reveal_strlit("PATCH");
    reveal_strlit("DELETE");
    reveal_strlit("OPTIONS");
}

/// A line holds a route exactly when its first word names methods and it has a
/// second word: these, and the words after them, but for those of nothing but
/// dots, with one space between one and the next.
pub proof fn law_route_line(line: Seq<char>)
    ensures
        route_line(line) is Some <==> word_seq(line).len() >= 2 && is_http_method(
            word_seq(line)[0],
        ),
        route_line(line) matches Some(r) ==> {
            &&& r.method == word_seq(line)[0]
            &&& r.uri == word_seq(line)[1]
            &&& r.details == joined(
                word_seq(line).skip(2).filter(
                    |w: Seq<char>| exists|j: int| 0 <= j < w.len() && w[j] != '.',
                ),
                " "@,
            )
        },
{
    law_trimmed_words(line);
    let more = |w: Seq<char>| exists|j: int| 0 <= j < w.len() && w[j] != '.';
    assert(more =~= |w: Seq<char>| !all_dots(w));
}

/// A summary of routes begins with their number and, in the order of the names,
/// the counts by method, where there are any. It shows the first eighty of the
/// routes as they are, and where some are left out, the last line counts them.
pub proof fn law_route_summary(
    lines: Seq<Seq<char>>,
    counts: Map<Seq<char>, nat>,
    e: Entries,
) -> (shown: Seq<Seq<char>>)
    requires
        forall|i: int, j: int|
            0 <= i < j < e.len() ==> precedes(#[trigger] e[i].0, #[trigger] e[j].0),
        map_of(e) == counts,
    ensures
        route_summary(lines, counts) == joined(shown, "\n"@),
        shown.len() == 1 + (if lines.len() <= 80 {
            lines.len()
        } else {
            81
        }),
        e.len() == 0 ==> shown[0] == "routes: "@ + decimal(lines.len()),
        e.len() > 0 ==> shown[0] == "routes: "@ + decimal(lines.len()) + " ("@ + joined(
            Seq::new(e.len(), |i: int| e[i].0 + "="@ + decimal(e[i].1)),
            " "@,
        ) + ")"@,
        forall|k: int| 0 <= k < lines.len() && k < 80 ==> shown[k + 1] == #[trigger] lines[k],
        lines.len() > 80 ==> shown.last() == "... +"@ + decimal((lines.len() - 80) as nat)
            + " more routes"@,
{
    lemma_entries_of(e);
    let shown = route_summary_lines(lines, counts);
    let notes = entry_notes(e);
    assert(notes =~= Seq::new(e.len(), |i: int| e[i].0 + "="@ + decimal(e[i].1)));
    if e.len() > 0 {
        reveal_strlit("=");
        assert(notes[0].len() > 0);
        lemma_joined_len(notes, " "@);
        assert(counts_note(counts).len() > 0);
    }
    law_capped(lines, 80, "... +"@, " more routes"@);
    let c = capped(lines, 80, "... +"@, " more routes"@);
    assert forall|k: int| 0 <= k < lines.len() && k < 80 implies shown[k + 1]
        == #[trigger] lines[k] by {
        assert(shown[k + 1] == c[k]);
        if lines.len() > 80 {
            assert(c.drop_last()[k] == c[k]);
        }
    }
    if lines.len() > 80 {
        assert(shown.last() == c.last());
    }
    shown
}

/// The lines and the head of a summary of routes.
proof fn lemma_summary(routes: Seq<Route>) -> (r: (Seq<Seq<char>>, Entries))
    ensures
        summary_of(routes) == joined(r.0, "\n"@),
        r.0.len() == 1 + (if routes.len() <= 80 {
            routes.len()
        } else {
            81
        }),
        routes.len() == 0 ==> r.0[0] == "routes: "@ + decimal(0),
        routes.len() > 0 ==> r.0[0] == "routes: "@ + decimal(routes.len()) + " ("@ + joined(
            entry_notes(r.1),
            " "@,
        ) + ")"@,
        forall|k: int| 0 <= k < routes.len() && k < 80 ==> r.0[k + 1] == (#[trigger] routes[k]).line,
        routes.len() > 80 ==> r.0.last() == "... +"@ + decimal((routes.len() - 80) as nat)
            + " more routes"@,
        r.1 == entries_of(tally(methods_of(routes))),
{
    let names = methods_of(routes);
    let counts = tally(names);
    let e = entries_of(counts);
    law_tally(names);
    let shown = law_route_summary(lines_of(routes), counts, e);
    assert(entry_notes(e) =~= Seq::new(e.len(), |i: int| e[i].0 + "="@ + decimal(e[i].1)));
    if routes.len() == 0 {
        if e.len() > 0 {
            assert(names.contains(e[0].0));
        }
    } else {
        assert(names[0] == routes[0].method);
        assert(e.len() > 0);
    }
    assert forall|k: int| 0 <= k < routes.len() && k < 80 implies shown[k + 1] == (
    #[trigger] routes[k]).line by {
        assert(lines_of(routes)[k] == routes[k].line);
    }
    (shown, e)
}

proof fn lemma_joined_len(parts: Seq<Seq<char>>, sep: Seq<char>)
    requires
        parts.len() > 0,
    ensures
        joined(parts, sep).len() >= parts[0].len(),
    decreases parts.len(),
{
    if parts.len() > 1 {
        lemma_joined_len(parts.drop_last(), sep);
    }
}

/// The counts in the head of a summary.
proof fn lemma_counts(routes: Seq<Route>, names: Seq<Seq<char>>)
    requires
        names == methods_of(routes),
    ensures
        ({
            let e = entries_of(tally(names));
            &&& entry_notes(e) == Seq::new(e.len(), |i: int| e[i].0 + "="@ + decimal(e[i].1))
            &&& forall|i: int, j: int|
                0 <= i < j < e.len() ==> precedes(#[trigger] e[i].0, #[trigger] e[j].0)
            &&& forall|i: int|
                0 <= i < e.len() ==> (#[trigger] e[i]).1 == names.to_multiset().count(e[i].0)
            &&& forall|k: int|
                0 <= k < names.len() ==> exists|i: int|
                    0 <= i < e.len() && e[i].0 == #[trigger] names[k] && e[i].1 > 0
        }),
{
    law_tally(names);
    let e = entries_of(tally(names));
    assert(entry_notes(e) =~= Seq::new(e.len(), |i: int| e[i].0 + "="@ + decimal(e[i].1)));
}

/// Whether `line` has a method for its first word, and a second word.
spec fn gives_route(line: Seq<char>) -> bool {
    word_seq(line).len() >= 2 && is_http_method(word_seq(line)[0])
}

proof fn lemma_text_routes(lines: Seq<Seq<char>>)
    ensures
        text_routes(lines).len() == lines.filter(|l: Seq<char>| gives_route(l)).len(),
        forall|k: int|
            0 <= k < text_routes(lines).len() ==> {
                let l = lines.filter(|l: Seq<char>| gives_route(l))[k];
                gives_route(l) && text_route(l) == Some(#[trigger] text_routes(lines)[k])
            },
    decreases lines.len(),
{
    reveal(Seq::filter);
    if lines.len() > 0 {
        lemma_text_routes(lines.drop_last());
        law_trimmed_words(lines.last());
    }
}

/// `value`, shortened, behind a label; nothing where there is no value.
proof fn lemma_labelled(label: Seq<char>, value: Seq<char>, max: nat)
    requires
        max >= 3,
    ensures
        labelled(label, truncated(value, max)) == (if value.len() == 0 {
            Seq::empty()
        } else if value.len() <= max {
            label + value
        } else {
            label + value.take(max - 3) + "..."@
        }),
{
    reveal_strlit("...");
    if value.len() > max {
        assert(label + (value.take(max - 3) + "..."@) =~= label + value.take(max - 3) + "..."@);
    }
}

/// Of output without a table, every line that has a method for its first word and
/// a second word gives one route, and no other line gives any. The summary counts
/// them all, and by method; it shows the first eighty, each as its method, its
/// URI, and the words after these, but for those of nothing but dots, where there
/// are any. Output without such a line is kept as it is.
pub proof fn law_routes_in_text(output: Seq<char>, found: Seq<Seq<char>>) -> (r: (
    Seq<Seq<char>>,
    Entries,
))
    requires
        table_of(output) is None,
        found == line_seq(output).filter(
            |l: Seq<char>| word_seq(l).len() >= 2 && is_http_method(word_seq(l)[0]),
        ),
    ensures
        found.len() == 0 ==> route_list(output) == output,
        found.len() > 0 ==> {
            let shown = r.0;
            let counts = r.1;
            let methods = Seq::new(found.len(), |k: int| word_seq(found[k])[0]);
            &&& route_list(output) == joined(shown, "\n"@)
            &&& shown.len() == 1 + (if found.len() <= 80 {
                found.len()
            } else {
                81
            })
            &&& shown[0] == "routes: "@ + decimal(found.len()) + " ("@ + joined(
                Seq::new(counts.len(), |i: int| counts[i].0 + "="@ + decimal(counts[i].1)),
                " "@,
            ) + ")"@
            &&& forall|k: int|
                0 <= k < found.len() && k < 80 ==> shown[k + 1] == {
                    let words = word_seq(#[trigger] found[k]);
                    let details = joined(
                        words.skip(2).filter(
                            |w: Seq<char>| exists|j: int| 0 <= j < w.len() && w[j] != '.',
                        ),
                        " "@,
                    );
                    words[0] + " "@ + words[1] + (if details.len() == 0 {
                        Seq::empty()
                    } else if details.len() <= 100 {
                        " "@ + details
                    } else {
                        " "@ + details.take(97) + "..."@
                    })
                }
            &&& found.len() > 80 ==> shown.last() == "... +"@ + decimal((found.len() - 80) as nat)
                + " more routes"@
            &&& forall|i: int, j: int|
                0 <= i < j < counts.len() ==> precedes(
                    #[trigger] counts[i].0,
                    #[trigger] counts[j].0,
                )
            &&& forall|i: int|
                0 <= i < counts.len() ==> (#[trigger] counts[i]).1 == methods.to_multiset().count(
                    counts[i].0,
                )
            &&& forall|k: int|
                0 <= k < methods.len() ==> exists|i: int|
                    0 <= i < counts.len() && counts[i].0 == #[trigger] methods[k] && counts[i].1 > 0
        },
{
    let all = line_seq(output);
    let routes = text_routes(all);
    let keep = |l: Seq<char>| word_seq(l).len() >= 2 && is_http_method(word_seq(l)[0]);
    assert(all.filter(keep) == found);
    assert(keep =~= |l: Seq<char>| gives_route(l));
    lemma_text_routes(all);
    let methods = Seq::new(found.len(), |k: int| word_seq(found[k])[0]);
    let r = lemma_summary(routes);
    assert forall|k: int| 0 <= k < found.len() implies {
        let words = word_seq(#[trigger] found[k]);
        let details = joined(
            words.skip(2).filter(|w: Seq<char>| exists|j: int| 0 <= j < w.len() && w[j] != '.'),
            " "@,
        );
        &&& routes[k].method == words[0]
        &&& routes[k].line == words[0] + " "@ + words[1] + (if details.len() == 0 {
            Seq::empty()
        } else if details.len() <= 100 {
            " "@ + details
        } else {
            " "@ + details.take(97) + "..."@
        })
    } by {
        let l = found[k];
        assert(text_route(l) == Some(routes[k]));
        law_trimmed_words(l);
        let words = word_seq(l);
        let dots = |w: Seq<char>| exists|j: int| 0 <= j < w.len() && w[j] != '.';
        assert(dots =~= |w: Seq<char>| !all_dots(w));
        assert(without_dots(words.skip(2)) == words.skip(2).filter(dots));
        lemma_labelled(" "@, joined(without_dots(words.skip(2)), " "@), 100);
    }
    assert(methods_of(routes) =~= methods);
    lemma_counts(routes, methods);
    r
}

proof fn lemma_table_routes(rows: Seq<Seq<Seq<char>>>, c: RouteColumns)
    ensures
        table_routes(rows, c).len() == rows.filter(
            |row: Seq<Seq<char>>| table_route(row, c) is Some,
        ).len(),
        forall|k: int|
            0 <= k < table_routes(rows, c).len() ==> {
                let row = rows.filter(|row: Seq<Seq<char>>| table_route(row, c) is Some)[k];
                table_route(row, c) == Some(#[trigger] table_routes(rows, c)[k])
            },
    decreases rows.len(),
{
    reveal(Seq::filter);
    if rows.len() > 0 {
        lemma_table_routes(rows.drop_last(), c);
    }
}

/// Of output with a table, every row with a method or a URI gives one route, and
/// no other row gives any. The summary counts them all, and by method; it shows
/// the first eighty, each as its method, its URI, and its name and its action
/// where it has them.
pub proof fn law_routes_in_table(
    output: Seq<char>,
    t: Grid,
    method: Option<int>,
    uri: Option<int>,
    found: Seq<Seq<Seq<char>>>,
) -> (r: (Seq<Seq<char>>, Entries))
    requires
        table_of(output) == Some(t),
        method == column(t.headers, seq!["method"@, "verb"@]),
        uri == column(t.headers, seq!["uri"@, "path"@]),
        found == t.rows.filter(
            |row: Seq<Seq<char>>|
                cell_or_empty(row, method).len() > 0 || cell_or_empty(row, uri).len() > 0,
        ),
    ensures
        ({
            let shown = r.0;
            let counts = r.1;
            let methods = Seq::new(found.len(), |k: int| cell_or_empty(found[k], method));
            &&& route_list(output) == joined(shown, "\n"@)
            &&& shown.len() == 1 + (if found.len() <= 80 {
                found.len()
            } else {
                81
            })
            &&& found.len() == 0 ==> shown[0] == "routes: "@ + decimal(0)
            &&& found.len() > 0 ==> shown[0] == "routes: "@ + decimal(found.len()) + " ("@ + joined(
                Seq::new(counts.len(), |i: int| counts[i].0 + "="@ + decimal(counts[i].1)),
                " "@,
            ) + ")"@
            &&& forall|k: int|
                0 <= k < found.len() && k < 80 ==> shown[k + 1] == {
                    let name = cell_or_empty(#[trigger] found[k], column(t.headers, seq!["name"@]));
                    let action = cell_or_empty(found[k], column(t.headers, seq!["action"@]));
                    cell_or_empty(found[k], method) + " "@ + cell_or_empty(found[k], uri) + (
                    if name.len() == 0 {
                        Seq::empty()
                    } else {
                        " name="@ + name
                    }) + (if action.len() == 0 {
                        Seq::empty()
                    } else if action.len() <= 80 {
                        " action="@ + action
                    } else {
                        " action="@ + action.take(77) + "..."@
                    })
                }
            &&& found.len() > 80 ==> shown.last() == "... +"@ + decimal((found.len() - 80) as nat)
                + " more routes"@
            &&& forall|i: int, j: int|
                0 <= i < j < counts.len() ==> precedes(
                    #[trigger] counts[i].0,
                    #[trigger] counts[j].0,
                )
            &&& forall|i: int|
                0 <= i < counts.len() ==> (#[trigger] counts[i]).1 == methods.to_multiset().count(
                    counts[i].0,
                )
            &&& forall|k: int|
                0 <= k < methods.len() ==> exists|i: int|
                    0 <= i < counts.len() && counts[i].0 == #[trigger] methods[k] && counts[i].1 > 0
        }),
{
    let c = route_columns(t.headers);
    let routes = table_routes(t.rows, c);
    let keep = |row: Seq<Seq<char>>|
        cell_or_empty(row, method).len() > 0 || cell_or_empty(row, uri).len() > 0;
    assert(t.rows.filter(keep) == found);
    assert(keep =~= |row: Seq<Seq<char>>| table_route(row, c) is Some);
    lemma_table_routes(t.rows, c);
    let methods = Seq::new(found.len(), |k: int| cell_or_empty(found[k], method));
    let r = lemma_summary(routes);
    assert forall|k: int| 0 <= k < found.len() implies {
        let name = cell_or_empty(#[trigger] found[k], column(t.headers, seq!["name"@]));
        let action = cell_or_empty(found[k], column(t.headers, seq!["action"@]));
        &&& routes[k].method == cell_or_empty(found[k], method)
        &&& routes[k].line == cell_or_empty(found[k], method) + " "@ + cell_or_empty(found[k], uri)
            + (if name.len() == 0 {
            Seq::empty()
        } else {
            " name="@ + name
        }) + (if action.len() == 0 {
            Seq::empty()
        } else if action.len() <= 80 {
            " action="@ + action
        } else {
            " action="@ + action.take(77) + "..."@
        })
    } by {
        assert(table_route(found[k], c) == Some(routes[k]));
        lemma_labelled(" action="@, cell_or_empty(found[k], c.action), 80);
    }
    assert(methods_of(routes) =~= methods);
    lemma_counts(routes, methods);
    r
}

/// A route as a line of text draws it: its method, its URI, the words after them,
/// how many spaces stand before the method, and how many after each word.
pub struct DrawnRoute {
    pub method: Seq<char>,
    pub uri: Seq<char>,
    pub rest: Seq<Seq<char>>,
    pub lead: nat,
    pub gaps: Seq<nat>,
}

/// The line that draws `d`.
pub open spec fn drawn_route(d: DrawnRoute) -> Seq<char> {
    spaced(seq![d.method, d.uri] + d.rest, d.lead, d.gaps)
}

/// Whether `d` can be drawn: its method names HTTP methods, all else is words, and
/// there is a space or more between one word and the next.
pub open spec fn is_drawable_route(d: DrawnRoute) -> bool {
    &&& is_http_method(d.method)
    &&& is_word(d.method)
    &&& is_word(d.uri)
    &&& forall|i: int| 0 <= i < d.rest.len() ==> is_word(#[trigger] d.rest[i])
    &&& d.gaps.len() == d.rest.len() + 2
    &&& forall|i: int| 0 <= i < d.rest.len() + 1 ==> #[trigger] d.gaps[i] > 0
}

/// Nothing but the words and spaces stands in a drawn line, and the first word
/// stands at its beginning.
proof fn lemma_spaced(words: Seq<Seq<char>>, lead: nat, gaps: Seq<nat>)
    requires
        gaps.len() == words.len(),
        words.len() > 0,
        forall|i: int| 0 <= i < words.len() ==> is_word(#[trigger] words[i]),
    ensures
        spaced(words, lead, gaps).len() > lead,
        spaced(words, lead, gaps).take(lead as int) == spaces(lead),
        spaced(words, lead, gaps)[lead as int] == words[0][0],
        forall|j: int|
            0 <= j < spaced(words, lead, gaps).len() ==> #[trigger] spaced(words, lead, gaps)[j]
                != '\n' && spaced(words, lead, gaps)[j] != '\r',
    decreases words.len(),
{
    let d = words.drop_last();
    let e = gaps.drop_last();
    let s = spaced(d, lead, e);
    let w = words.last();
    let all = spaced(words, lead, gaps);
    assert(is_word(words[words.len() - 1]));
    if d.len() == 0 {
        assert(s == spaces(lead));
    } else {
        assert forall|i: int| 0 <= i < d.len() implies is_word(#[trigger] d[i]) by {
            assert(d[i] == words[i]);
        }
        lemma_spaced(d, lead, e);
        assert(s.take(lead as int) =~= all.take(lead as int));
    }
    assert(all.take(lead as int) =~= spaces(lead));
    assert forall|j: int| 0 <= j < all.len() implies #[trigger] all[j] != '\n' && all[j]
        != '\r' by {
        if j < s.len() {
            assert(all[j] == s[j]);
        } else if j < s.len() + w.len() {
            assert(all[j] == w[j - s.len()]);
        } else {
            assert(all[j] == ' ');
        }
    }
}

/// A text that names methods begins with a letter.
proof fn lemma_method_first(method: Seq<char>)
    requires
        is_http_method(method),
        method.len() > 0,
    ensures
        method[0] != '|',
{
    let p = Pattern::Char('|');
    let names = split_seq(method, p);
    lemma_split_nonempty(method, p);
    law_split_then_join(method, '|');
    assert(is_method_name(names[0]));
    lemma_method_letters(names[0]);
    lemma_joined_first(names, seq!['|']);
}

proof fn lemma_joined_first(parts: Seq<Seq<char>>, sep: Seq<char>)
    requires
        parts.len() > 0,
        parts[0].len() > 0,
    ensures
        joined(parts, sep).len() > 0,
        joined(parts, sep)[0] == parts[0][0],
    decreases parts.len(),
{
    if parts.len() > 1 {
        lemma_joined_first(parts.drop_last(), sep);
    }
}

/// A drawn route is no row of a table.
proof fn lemma_drawn_route_is_no_row(d: DrawnRoute)
    requires
        is_drawable_route(d),
    ensures
        !is_row(drawn_route(d)),
{
    let words = seq![d.method, d.uri] + d.rest;
    let line = drawn_route(d);
    lemma_words(d);
    lemma_spaced(words, d.lead, d.gaps);
    lemma_method_first(d.method);
    assert forall|i: int| 0 <= i < d.lead implies line[i] == ' ' by {
        assert(line.take(d.lead as int)[i] == spaces(d.lead)[i]);
    }
    assert(is_word(words[0]));
    lemma_trimmed_front_keeps(line, d.lead as int);
    lemma_trimmed_back_first(line.skip(d.lead as int));
}

proof fn lemma_trimmed_front_keeps(s: Seq<char>, n: int)
    requires
        0 <= n < s.len(),
        forall|i: int| 0 <= i < n ==> s[i] == ' ',
        !is_space(s[n]),
    ensures
        trimmed_front(s, Pattern::WhiteSpace) == s.skip(n),
    decreases n,
{
    if n == 0 {
        assert(s.skip(0) =~= s);
    } else {
        lemma_trimmed_front_keeps(s.drop_first(), n - 1);
        assert(s.drop_first().skip(n - 1) =~= s.skip(n));
    }
}

proof fn lemma_trimmed_back_first(s: Seq<char>)
    requires
        s.len() > 0,
        !is_space(s[0]),
    ensures
        trimmed_back(s, Pattern::WhiteSpace).len() > 0,
        trimmed_back(s, Pattern::WhiteSpace)[0] == s[0],
    decreases s.len(),
{
    if is_space(s.last()) {
        lemma_trimmed_back_first(s.drop_last());
    }
}

proof fn lemma_words(d: DrawnRoute)
    requires
        is_drawable_route(d),
    ensures
        ({
            let words = seq![d.method, d.uri] + d.rest;
            &&& forall|i: int| 0 <= i < words.len() ==> is_word(#[trigger] words[i])
            &&& word_seq(drawn_route(d)) == words
            &&& words.skip(2) == d.rest
        }),
{
    let words = seq![d.method, d.uri] + d.rest;
    assert forall|i: int| 0 <= i < words.len() implies is_word(#[trigger] words[i]) by {
        if i >= 2 {
            assert(is_word(d.rest[i - 2]));
        }
    }
    law_spaced_words_are_read_back(words, d.lead, d.gaps);
    assert(words.skip(2) =~= d.rest);
}

proof fn lemma_no_rows(lines: Seq<Seq<char>>)
    requires
        forall|i: int| 0 <= i < lines.len() ==> !is_row(#[trigger] lines[i]),
    ensures
        row_seq(lines).len() == 0,
    decreases lines.len(),
{
    if lines.len() > 0 {
        let d = lines.drop_last();
        assert forall|i: int| 0 <= i < d.len() implies !is_row(#[trigger] d[i]) by {
            assert(d[i] == lines[i]);
        }
        lemma_no_rows(d);
        assert(!is_row(lines[lines.len() - 1]));
    }
}

proof fn lemma_filter_all(s: Seq<Seq<char>>, keep: spec_fn(Seq<char>) -> bool)
    requires
        forall|i: int| 0 <= i < s.len() ==> keep(#[trigger] s[i]),
    ensures
        s.filter(keep) == s,
    decreases s.len(),
{
    reveal(Seq::filter);
    if s.len() == 0 {
        assert(s.filter(keep) =~= s);
    } else {
        let d = s.drop_last();
        assert forall|i: int| 0 <= i < d.len() implies keep(#[trigger] d[i]) by {
            assert(d[i] == s[i]);
        }
        lemma_filter_all(d, keep);
        assert(keep(s[s.len() - 1]));
        assert(d.push(s.last()) =~= s);
    }
}

/// Of lines that draw routes, one on each, the summary counts as many routes as
/// were drawn, and by method as often as the method was drawn. Its lines are the
/// routes in order, up to eighty: the method, the URI, and the words after them
/// where there are any but words of dots.
pub proof fn law_drawn_routes_are_shown(drawn: Seq<DrawnRoute>) -> (r: (Seq<Seq<char>>, Entries))
    requires
        drawn.len() > 0,
        forall|k: int| 0 <= k < drawn.len() ==> is_drawable_route(#[trigger] drawn[k]),
    ensures
        ({
            let output = joined(
                Seq::new(drawn.len(), |k: int| drawn_route(drawn[k])),
                seq!['\n'],
            );
            let shown = r.0;
            let counts = r.1;
            let methods = Seq::new(drawn.len(), |k: int| drawn[k].method);
            &&& route_list(output) == joined(shown, "\n"@)
            &&& shown.len() == 1 + (if drawn.len() <= 80 {
                drawn.len()
            } else {
                81
            })
            &&& shown[0] == "routes: "@ + decimal(drawn.len()) + " ("@ + joined(
                Seq::new(counts.len(), |i: int| counts[i].0 + "="@ + decimal(counts[i].1)),
                " "@,
            ) + ")"@
            &&& forall|k: int|
                0 <= k < drawn.len() && k < 80 ==> shown[k + 1] == {
                    let details = joined(
                        (#[trigger] drawn[k]).rest.filter(
                            |w: Seq<char>| exists|j: int| 0 <= j < w.len() && w[j] != '.',
                        ),
                        " "@,
                    );
                    drawn[k].method + " "@ + drawn[k].uri + (if details.len() == 0 {
                        Seq::empty()
                    } else if details.len() <= 100 {
                        " "@ + details
                    } else {
                        " "@ + details.take(97) + "..."@
                    })
                }
            &&& drawn.len() > 80 ==> shown.last() == "... +"@ + decimal((drawn.len() - 80) as nat)
                + " more routes"@
            &&& forall|i: int, j: int|
                0 <= i < j < counts.len() ==> precedes(
                    #[trigger] counts[i].0,
                    #[trigger] counts[j].0,
                )
            &&& forall|i: int|
                0 <= i < counts.len() ==> (#[trigger] counts[i]).1 == methods.to_multiset().count(
                    counts[i].0,
                )
            &&& forall|k: int|
                0 <= k < methods.len() ==> exists|i: int|
                    0 <= i < counts.len() && counts[i].0 == #[trigger] methods[k] && counts[i].1 > 0
        }),
{
    let lines = Seq::new(drawn.len(), |k: int| drawn_route(drawn[k]));
    let output = joined(lines, seq!['\n']);
    assert forall|k: int| 0 <= k < lines.len() implies {
        let l = #[trigger] lines[k];
        let words = seq![drawn[k].method, drawn[k].uri] + drawn[k].rest;
        &&& word_seq(l) == words
        &&& words.skip(2) == drawn[k].rest
        &&& !is_row(l)
        &&& l.len() > 0
        &&& forall|j: int| 0 <= j < l.len() ==> #[trigger] l[j] != '\n' && l[j] != '\r'
    } by {
        assert(is_drawable_route(drawn[k]));
        lemma_words(drawn[k]);
        let words = seq![drawn[k].method, drawn[k].uri] + drawn[k].rest;
        lemma_spaced(words, drawn[k].lead, drawn[k].gaps);
        lemma_drawn_route_is_no_row(drawn[k]);
    }
    assert forall|i: int, j: int| 0 <= i < lines.len() && 0 <= j < lines[i].len() implies
        #[trigger] lines[i][j] != '\n' by {
        let l = lines[i];
        assert(l[j] != '\n');
    }
    assert forall|i: int| 0 <= i < lines.len() && lines[i].len() > 0 implies (
    #[trigger] lines[i]).last() != '\r' by {
        let l = lines[i];
        assert(l[l.len() - 1] != '\r');
    }
    law_join_then_lines(lines);
    assert(lines[lines.len() - 1].len() > 0);
    assert(line_seq(output) == lines);
    lemma_no_rows(lines);
    let keep = |l: Seq<char>| word_seq(l).len() >= 2 && is_http_method(word_seq(l)[0]);
    assert forall|i: int| 0 <= i < lines.len() implies keep(#[trigger] lines[i]) by {
        assert(is_drawable_route(drawn[i]));
        assert(word_seq(lines[i])[0] == drawn[i].method);
    }
    lemma_filter_all(lines, keep);
    let r = law_routes_in_text(output, lines);
    let methods = Seq::new(drawn.len(), |k: int| drawn[k].method);
    assert(Seq::new(lines.len(), |k: int| word_seq(lines[k])[0]) =~= methods) by {
        assert forall|k: int| 0 <= k < lines.len() implies word_seq(lines[k])[0]
            == drawn[k].method by {
            assert(lines[k] == drawn_route(drawn[k]));
        }
    }
    assert forall|k: int| 0 <= k < drawn.len() && k < 80 implies r.0[k + 1] == {
        let details = joined(
            (#[trigger] drawn[k]).rest.filter(
                |w: Seq<char>| exists|j: int| 0 <= j < w.len() && w[j] != '.',
            ),
            " "@,
        );
        drawn[k].method + " "@ + drawn[k].uri + (if details.len() == 0 {
            Seq::empty()
        } else if details.len() <= 100 {
            " "@ + details
        } else {
            " "@ + details.take(97) + "..."@
        })
    } by {
        let l = lines[k];
        assert(word_seq(l).skip(2) == drawn[k].rest);
    }
    r
}

} // verus!

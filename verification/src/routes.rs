//! `route:list`.
use vstd::prelude::*;
use crate::report::{capped, push_capped, push_line};
use crate::table::{
    cell_or_default, cell_or_empty, column, find_column, labels, parse_ascii_table, position,
    row_texts, table_of, ParsedTable,
};
use crate::tally::{
    ascending, entries_of, entry_texts, law_tally, lemma_tally_push, map_of, tally, total, Entries,
    MethodCounts,
};
use crate::text::{
    chars_of, decimal, join, joined, line_seq, lines, same, split, split_seq, split_whitespace,
    texts, to_decimal, trim, trimmed, truncate, truncated, word_seq, Pattern,
};

verus! {

/// How many routes are shown.
pub const MAX_ROUTE_ROWS: usize = 80;

/// How much of a route's action is shown.
pub const MAX_ACTION_CHARS: usize = 80;

/// How much of a route's details is shown.
pub const MAX_DETAIL_CHARS: usize = 100;

/// Whether `part` is the name of an HTTP method.
pub open spec fn is_method_name(part: Seq<char>) -> bool {
    ||| part == "GET"@
    ||| part == "HEAD"@
    ||| part == "POST"@
    ||| part == "PUT"@
    ||| part == "PATCH"@
    ||| part == "DELETE"@
    ||| part == "OPTIONS"@
}

/// Whether `value` is one or more names of HTTP methods, parted by `|`.
pub open spec fn is_http_method(value: Seq<char>) -> bool {
    let parts = split_seq(value, Pattern::Char('|'));
    forall|i: int| 0 <= i < parts.len() ==> is_method_name(#[trigger] parts[i])
}

/// Tells whether `value` is one or more names of HTTP methods, parted by `|`.
pub fn looks_like_http_method(value: &str) -> (r: bool)
    ensures
        r == is_http_method(value@),
{
    let parts = split(value, Pattern::Char('|'));
    let ghost all = texts(parts@);
    let mut i: usize = 0;
    while i < parts.len()
        invariant
            i <= parts@.len(),
            all == texts(parts@),
            all == split_seq(value@, Pattern::Char('|')),
            forall|j: int| 0 <= j < i ==> is_method_name(#[trigger] all[j]),
        decreases parts@.len() - i,
    {
        let part = parts[i].as_str();
        if !(same(part, "GET") || same(part, "HEAD") || same(part, "POST") || same(part, "PUT")
            || same(part, "PATCH") || same(part, "DELETE") || same(part, "OPTIONS")) {
            assert(!is_method_name(all[i as int]));
            return false;
        }
        i += 1;
    }
    true
}

/// Whether `part` is nothing but dots.
pub open spec fn all_dots(part: Seq<char>) -> bool {
    forall|i: int| 0 <= i < part.len() ==> part[i] == '.'
}

/// Tells whether `part` is nothing but dots.
pub fn is_all_dots(part: &str) -> (r: bool)
    ensures
        r == all_dots(part@),
{
    let v = chars_of(part);
    let mut i: usize = 0;
    while i < v.len()
        invariant
            v@ == part@,
            i <= v@.len(),
            forall|j: int| 0 <= j < i ==> part@[j] == '.',
        decreases v@.len() - i,
    {
        if v[i] != '.' {
            return false;
        }
        i += 1;
    }
    true
}

/// The words that are more than dots.
pub open spec fn without_dots(words: Seq<Seq<char>>) -> Seq<Seq<char>> {
    words.filter(|w: Seq<char>| !all_dots(w))
}

/// A route as a line of text gives it.
#[verifier::ext_equal]
pub struct RouteLine {
    pub method: Seq<char>,
    pub uri: Seq<char>,
    pub details: Seq<char>,
}

/// The route in `line`: its first word when that is a method, its second word,
/// and what follows without the dots that fill the line.
pub open spec fn route_line(line: Seq<char>) -> Option<RouteLine> {
    let words = word_seq(trimmed(line));
    if words.len() < 2 || !is_http_method(words[0]) {
        None
    } else {
        Some(
            RouteLine {
                method: words[0],
                uri: words[1],
                details: joined(without_dots(words.skip(2)), " "@),
            },
        )
    }
}

/// Reads the route in `line`, if it holds one: method, URI and details.
pub fn parse_route_line(line: &str) -> (r: Option<(String, String, String)>)
    ensures
        match r {
            Some((method, uri, details)) => route_line(line@) == Some(
                RouteLine { method: method@, uri: uri@, details: details@ },
            ),
            None => route_line(line@) is None,
        },
{
    let words = split_whitespace(trim(line));
    let ghost all = texts(words@);
    if words.len() == 0 || !looks_like_http_method(words[0].as_str()) {
        return None;
    }
    if words.len() == 1 {
        return None;
    }
    let mut kept: Vec<String> = Vec::new();
    let mut i: usize = 2;
    let ghost rest = all.skip(2);
    assert(texts(kept@) =~= without_dots(rest.take(0))) by {
        reveal(Seq::filter);
    }
    while i < words.len()
        invariant
            2 <= i <= words@.len(),
            all == texts(words@),
            rest == all.skip(2),
            texts(kept@) == without_dots(rest.take(i - 2)),
        decreases words@.len() - i,
    {
        assert(rest.take(i - 1).drop_last() =~= rest.take(i - 2));
        assert(rest.take(i - 1).last() == words@[i as int]@);
        if !is_all_dots(words[i].as_str()) {
            push_line(&mut kept, words[i].clone());
        }
        proof {
            reveal(Seq::filter);
        }
        i += 1;
    }
    assert(rest.take(i - 2) =~= rest);
    Some((words[0].clone(), words[1].clone(), join(kept.as_slice(), " ")))
}

/// Each of `e` as a name, `=` and a count.
pub open spec fn entry_notes(e: Entries) -> Seq<Seq<char>> {
    e.map_values(|x: (Seq<char>, nat)| x.0 + "="@ + decimal(x.1))
}

/// The counts by method, in the order of the methods.
pub open spec fn counts_note(counts: Map<Seq<char>, nat>) -> Seq<char> {
    joined(entry_notes(entries_of(counts)), " "@)
}

/// The first line of a summary: how many routes there are, and how many of each
/// method.
pub open spec fn route_head(total: nat, counts: Map<Seq<char>, nat>) -> Seq<char> {
    if counts_note(counts).len() == 0 {
        "routes: "@ + decimal(total)
    } else {
        "routes: "@ + decimal(total) + " ("@ + counts_note(counts) + ")"@
    }
}

/// The lines of a summary.
pub open spec fn route_summary_lines(
    routes: Seq<Seq<char>>,
    counts: Map<Seq<char>, nat>,
) -> Seq<Seq<char>> {
    seq![route_head(routes.len(), counts)] + capped(
        routes,
        MAX_ROUTE_ROWS as nat,
        "... +"@,
        " more routes"@,
    )
}

/// The text of a summary.
pub open spec fn route_summary(routes: Seq<Seq<char>>, counts: Map<Seq<char>, nat>) -> Seq<char> {
    joined(route_summary_lines(routes, counts), "\n"@)
}

/// Writes the summary of `routes`, of which `method_counts` counts the methods.
pub fn build_route_summary(routes: Vec<String>, method_counts: MethodCounts) -> (r: String)
    requires
        method_counts.wf(),
    ensures
        r@ == route_summary(texts(routes@), method_counts@),
        ascending(entries_of(method_counts@)),
        map_of(entries_of(method_counts@)) == method_counts@,
{
    let entries = method_counts.entries();
    let ghost e = entry_texts(entries@);
    let mut notes: Vec<String> = Vec::new();
    let mut i: usize = 0;
    while i < entries.len()
        invariant
            i <= entries@.len(),
            e == entry_texts(entries@),
            texts(notes@) == entry_notes(e.take(i as int)),
        decreases entries@.len() - i,
    {
        let mut note = entries[i].0.clone();
        note.append("=");
        note.append(to_decimal(entries[i].1).as_str());
        push_line(&mut notes, note);
        i += 1;
        assert(texts(notes@) =~= entry_notes(e.take(i as int)));
    }
    assert(e.take(i as int) =~= e);
    let counts = join(notes.as_slice(), " ");
    let mut head = "routes: ".to_owned();
    head.append(to_decimal(routes.len()).as_str());
    if !counts.as_str().is_empty() {
        head.append(" (");
        head.append(counts.as_str());
        head.append(")");
    }
    let mut out: Vec<String> = Vec::new();
    push_line(&mut out, head);
    push_capped(&mut out, routes.as_slice(), MAX_ROUTE_ROWS, "... +", " more routes");
    assert(texts(out@) =~= route_summary_lines(texts(routes@), method_counts@));
    join(out.as_slice(), "\n")
}

/// A route as the summary shows it, and its method.
#[verifier::ext_equal]
pub struct Route {
    pub method: Seq<char>,
    pub line: Seq<char>,
}

/// The methods of `routes`.
pub open spec fn methods_of(routes: Seq<Route>) -> Seq<Seq<char>> {
    routes.map_values(|r: Route| r.method)
}

/// The lines of `routes`.
pub open spec fn lines_of(routes: Seq<Route>) -> Seq<Seq<char>> {
    routes.map_values(|r: Route| r.line)
}

/// The summary of `routes`.
pub open spec fn summary_of(routes: Seq<Route>) -> Seq<char> {
    route_summary(lines_of(routes), tally(methods_of(routes)))
}

/// Where a table has the columns that a summary shows.
pub struct RouteColumns {
    pub method: Option<int>,
    pub uri: Option<int>,
    pub name: Option<int>,
    pub action: Option<int>,
}

/// The columns under `headers`.
pub open spec fn route_columns(headers: Seq<Seq<char>>) -> RouteColumns {
    RouteColumns {
        method: column(headers, seq!["method"@, "verb"@]),
        uri: column(headers, seq!["uri"@, "path"@]),
        name: column(headers, seq!["name"@]),
        action: column(headers, seq!["action"@]),
    }
}

/// `label` and `value`, or nothing when there is no value.
pub open spec fn labelled(label: Seq<char>, value: Seq<char>) -> Seq<char> {
    if value.len() == 0 {
        Seq::empty()
    } else {
        label + value
    }
}

/// The route in a row of a table, unless the row has neither method nor URI.
pub open spec fn table_route(row: Seq<Seq<char>>, c: RouteColumns) -> Option<Route> {
    let method = cell_or_empty(row, c.method);
    let uri = cell_or_empty(row, c.uri);
    let name = cell_or_empty(row, c.name);
    let action = cell_or_empty(row, c.action);
    if method.len() == 0 && uri.len() == 0 {
        None
    } else {
        Some(
            Route {
                method,
                line: method + " "@ + uri + labelled(" name="@, name) + labelled(
                    " action="@,
                    truncated(action, MAX_ACTION_CHARS as nat),
                ),
            },
        )
    }
}

/// The routes in the rows of a table.
pub open spec fn table_routes(rows: Seq<Seq<Seq<char>>>, c: RouteColumns) -> Seq<Route>
    decreases rows.len(),
{
    if rows.len() == 0 {
        Seq::empty()
    } else {
        let before = table_routes(rows.drop_last(), c);
        match table_route(rows.last(), c) {
            Some(route) => before.push(route),
            None => before,
        }
    }
}

/// The route in a line of text.
pub open spec fn text_route(line: Seq<char>) -> Option<Route> {
    match route_line(line) {
        Some(r) => Some(
            Route {
                method: r.method,
                line: r.method + " "@ + r.uri + labelled(
                    " "@,
                    truncated(r.details, MAX_DETAIL_CHARS as nat),
                ),
            },
        ),
        None => None,
    }
}

/// The routes in lines of text.
pub open spec fn text_routes(lines: Seq<Seq<char>>) -> Seq<Route>
    decreases lines.len(),
{
    if lines.len() == 0 {
        Seq::empty()
    } else {
        let before = text_routes(lines.drop_last());
        match text_route(lines.last()) {
            Some(route) => before.push(route),
            None => before,
        }
    }
}

/// What stands for the output of `route:list`: the summary of the routes in its
/// table, or else of those in its lines, or else the output as it is.
pub open spec fn route_list(output: Seq<char>) -> Seq<char> {
    match table_of(output) {
        Some(t) => summary_of(table_routes(t.rows, route_columns(t.headers))),
        None => {
            let routes = text_routes(line_seq(output));
            if routes.len() == 0 {
                output
            } else {
                summary_of(routes)
            }
        },
    }
}

/// The lines of routes, and the counts of their methods, as they are collected.
struct Collected {
    lines: Vec<String>,
    counts: MethodCounts,
}

impl Collected {
    /// What was collected is `routes`.
    spec fn holds(&self, routes: Seq<Route>) -> bool {
        &&& self.counts.wf()
        &&& self.counts@ == tally(methods_of(routes))
        &&& texts(self.lines@) == lines_of(routes)
    }

    fn new() -> (r: Collected)
        ensures
            r.holds(Seq::empty()),
    {
        let r = Collected { lines: Vec::new(), counts: MethodCounts::new() };
        proof {
            let none = Seq::<Route>::empty();
            assert(texts(r.lines@) =~= lines_of(none));
            assert(r.counts@ =~= tally(methods_of(none)));
        }
        r
    }

    /// Adds a route.
    fn add_route(&mut self, method: &str, line: String, Ghost(routes): Ghost<Seq<Route>>)
        requires
            old(self).holds(routes),
            routes.len() < usize::MAX,
        ensures
            final(self).holds(routes.push(Route { method: method@, line: line@ })),
    {
        let ghost more = routes.push(Route { method: method@, line: line@ });
        proof {
            lemma_tally_bound(methods_of(routes), method@);
            lemma_tally_push(methods_of(routes), method@);
            assert(methods_of(more) =~= methods_of(routes).push(method@));
            assert(lines_of(more) =~= lines_of(routes).push(line@));
        }
        self.counts.increment(method);
        push_line(&mut self.lines, line);
    }
}

/// No name occurs more often than there are names.
proof fn lemma_tally_bound(names: Seq<Seq<char>>, name: Seq<char>)
    ensures
        tally(names).contains_key(name) ==> tally(names)[name] <= names.len(),
    decreases names.len(),
{
    broadcast use vstd::seq_lib::group_to_multiset_ensures;

    if names.len() > 0 {
        let d = names.drop_last();
        lemma_tally_bound(d, name);
        lemma_tally_push(d, names.last());
        assert(names =~= d.push(names.last()));
    }
}

/// The routes in rows are no more than the rows.
proof fn lemma_table_routes_len(rows: Seq<Seq<Seq<char>>>, c: RouteColumns)
    ensures
        table_routes(rows, c).len() <= rows.len(),
    decreases rows.len(),
{
    if rows.len() > 0 {
        lemma_table_routes_len(rows.drop_last(), c);
    }
}

/// The routes in lines are no more than the lines.
proof fn lemma_text_routes_len(lines: Seq<Seq<char>>)
    ensures
        text_routes(lines).len() <= lines.len(),
    decreases lines.len(),
{
    if lines.len() > 0 {
        lemma_text_routes_len(lines.drop_last());
    }
}

/// Summarises the routes in a table.
fn summarise_table(table: &ParsedTable) -> (r: String)
    ensures
        r@ == summary_of(table_routes(table@.rows, route_columns(table@.headers))),
{
    let headers = table.headers.as_slice();
    let method_names = ["method", "verb"];
    let uri_names = ["uri", "path"];
    let name_names = ["name"];
    let action_names = ["action"];
    let method_idx = find_column(headers, &method_names);
    let uri_idx = find_column(headers, &uri_names);
    let name_idx = find_column(headers, &name_names);
    let action_idx = find_column(headers, &action_names);
    let ghost c = route_columns(table@.headers);
    assert(labels(method_names@) =~= seq!["method"@, "verb"@]);
    assert(labels(uri_names@) =~= seq!["uri"@, "path"@]);
    assert(labels(name_names@) =~= seq!["name"@]);
    assert(labels(action_names@) =~= seq!["action"@]);
    let ghost all = row_texts(table.rows@);
    let mut found = Collected::new();
    let mut i: usize = 0;
    while i < table.rows.len()
        invariant
            i <= table.rows@.len(),
            all == row_texts(table.rows@),
            c.method == position(method_idx),
            c.uri == position(uri_idx),
            c.name == position(name_idx),
            c.action == position(action_idx),
            found.holds(table_routes(all.take(i as int), c)),
        decreases table.rows@.len() - i,
    {
        assert(all.take(i + 1).drop_last() =~= all.take(i as int));
        proof {
            lemma_table_routes_len(all.take(i as int), c);
        }
        let row = table.rows[i].as_slice();
        let method = cell_or_default(row, method_idx);
        let uri = cell_or_default(row, uri_idx);
        if !(method.is_empty() && uri.is_empty()) {
            let mut line = method.to_owned();
            line.append(" ");
            line.append(uri);
            let ghost start = line@;
            let name = cell_or_default(row, name_idx);
            if !name.is_empty() {
                line.append(" name=");
                line.append(name);
            }
            assert(line@ =~= start + labelled(" name="@, name@));
            let ghost named = line@;
            let action = cell_or_default(row, action_idx);
            if !action.is_empty() {
                line.append(" action=");
                line.append(truncate(action, MAX_ACTION_CHARS).as_str());
            }
            assert(line@ =~= named + labelled(
                " action="@,
                truncated(action@, MAX_ACTION_CHARS as nat),
            ));
            found.add_route(method, line, Ghost(table_routes(all.take(i as int), c)));
        }
        i += 1;
    }
    assert(all.take(i as int) =~= all);
    build_route_summary(found.lines, found.counts)
}

/// Summarises the output of `route:list`.
pub fn filter_route_list(output: &str) -> (r: String)
    ensures
        r@ == route_list(output@),
{
    if let Some(table) = parse_ascii_table(output) {
        return summarise_table(&table);
    }
    let ls = lines(output);
    let ghost all = texts(ls@);
    let mut found = Collected::new();
    let mut i: usize = 0;
    while i < ls.len()
        invariant
            i <= ls@.len(),
            all == texts(ls@),
            found.holds(text_routes(all.take(i as int))),
        decreases ls@.len() - i,
    {
        assert(all.take(i + 1).drop_last() =~= all.take(i as int));
        proof {
            lemma_text_routes_len(all.take(i as int));
        }
        if let Some((method, uri, details)) = parse_route_line(ls[i].as_str()) {
            let mut compact = method.clone();
            compact.append(" ");
            compact.append(uri.as_str());
            let ghost start = compact@;
            if !details.as_str().is_empty() {
                compact.append(" ");
                compact.append(truncate(details.as_str(), MAX_DETAIL_CHARS).as_str());
            }
            assert(compact@ =~= start + labelled(
                " "@,
                truncated(details@, MAX_DETAIL_CHARS as nat),
            ));
            found.add_route(method.as_str(), compact, Ghost(text_routes(all.take(i as int))));
        }
        i += 1;
    }
    assert(all.take(i as int) =~= all);
    if found.lines.len() == 0 {
        output.to_owned()
    } else {
        build_route_summary(found.lines, found.counts)
    }
}

/// The counts by method in a summary add up to the number of routes in it.
pub proof fn law_method_counts_add_up(routes: Seq<Route>)
    ensures
        total(entries_of(tally(methods_of(routes)))) == lines_of(routes).len(),
{
    law_tally(methods_of(routes));
}

/// No word of the details of a route is nothing but dots, and every other word
/// after the URI is among them.
pub proof fn law_details_hold_no_filler(words: Seq<Seq<char>>)
    ensures
        forall|i: int|
            0 <= i < without_dots(words).len() ==> !all_dots(#[trigger] without_dots(words)[i]),
        forall|w: Seq<char>|
            words.contains(w) && !all_dots(w) ==> #[trigger] without_dots(words).contains(w),
{
    let keep = |w: Seq<char>| !all_dots(w);
    assert forall|i: int| 0 <= i < without_dots(words).len() implies !all_dots(
        #[trigger] without_dots(words)[i],
    ) by {
        words.lemma_filter_pred(keep, i);
    }
    assert forall|w: Seq<char>|
        words.contains(w) && !all_dots(w) implies #[trigger] without_dots(words).contains(w) by {
        let k = choose|k: int| 0 <= k < words.len() && words[k] == w;
        words.lemma_filter_contains(keep, k);
    }
}

} // verus!

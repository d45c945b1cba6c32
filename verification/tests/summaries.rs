use artisan_cmd::fields::{
    collect_key_value_rows, filter_db_show, filter_key_value_output, normalize_key,
    split_dotted_key_value,
};
use artisan_cmd::filter::filter_artisan_output;
use artisan_cmd::migrations::{filter_migrate_status, trim_migration_status_line};
use artisan_cmd::routes::{
    build_route_summary, filter_route_list, looks_like_http_method, parse_route_line,
};
use artisan_cmd::table::{
    cell, find_column, format_compact_table, is_ascii_border, parse_ascii_table,
    split_table_cells, ParsedTable,
};
use artisan_cmd::tally::MethodCounts;

fn strings(items: &[&str]) -> Vec<String> {
    items.iter().map(|s| s.to_string()).collect()
}

#[test]
fn borders() {
    assert!(is_ascii_border("+---+"));
    assert!(is_ascii_border("==="));
    assert!(is_ascii_border(": - :"));
    assert!(!is_ascii_border("--"));
    assert!(!is_ascii_border("+++"));
    assert!(!is_ascii_border("| - |"));
    assert!(!is_ascii_border("--\u{2014}"));
}

#[test]
fn a_bar_inside_a_word_parts_no_cells() {
    assert_eq!(split_table_cells("| GET|HEAD | / |"), vec!["GET|HEAD", "/"]);
    assert_eq!(split_table_cells("|  | x |"), vec!["", "x"]);
    assert_eq!(split_table_cells("| a| b |"), vec!["a| b"]);
    assert_eq!(split_table_cells("|"), vec![""]);
    assert_eq!(split_table_cells("|a | |b|"), vec!["a", "|b"]);
}

#[test]
fn a_drawn_table_is_read_back() {
    let table = ParsedTable {
        headers: strings(&["Method", "URI"]),
        rows: vec![strings(&["GET|HEAD", "/"]), strings(&["", "a b"])],
    };
    let draw = |cells: &Vec<String>| format!("| {} |", cells.join(" | "));
    let border = "+---+---+";
    let mut drawn = vec![border.to_string(), draw(&table.headers), border.to_string()];
    drawn.extend(table.rows.iter().map(draw));
    drawn.push(border.to_string());
    assert_eq!(parse_ascii_table(&drawn.join("\n")), Some(table));
}

#[test]
fn a_table_is_read_back_however_wide_its_columns_are() {
    let drawn = "
  Heading
+-----------+-------+
|  Method   | URI   |
+-----------+-------+

|  GET|HEAD | /     |
|           |   a|b |
+-----------+-------+

";
    assert_eq!(
        parse_ascii_table(drawn),
        Some(ParsedTable {
            headers: strings(&["Method", "URI"]),
            rows: vec![strings(&["GET|HEAD", "/"]), strings(&["", "a|b"])],
        })
    );
    assert_eq!(split_table_cells("|   a b  | c       |"), vec!["a b", "c"]);
}

#[test]
fn a_table_needs_a_row_below_its_headers() {
    assert_eq!(parse_ascii_table("+---+\n| A |\n+---+\n"), None);
    assert_eq!(parse_ascii_table("no table\n"), None);
    assert_eq!(
        parse_ascii_table("text\r\n  | A | B |\r\n--- \r\n  | 1 | 2 |\r\n"),
        Some(ParsedTable { headers: strings(&["A", "B"]), rows: vec![strings(&["1", "2"])] })
    );
}

#[test]
fn columns_and_cells() {
    let headers = strings(&["Domain", " METHOD ", "Verb"]);
    assert_eq!(find_column(&headers, &["verb", "method"]), Some(1));
    assert_eq!(find_column(&headers, &["uri"]), None);
    let row = strings(&["x", "  y z "]);
    assert_eq!(cell(&row, Some(1)), Some("y z"));
    assert_eq!(cell(&row, Some(2)), None);
    assert_eq!(cell(&row, None), None);
}

#[test]
fn compact_tables() {
    let table = ParsedTable {
        headers: strings(&["A", "B"]),
        rows: (0..4).map(|i| vec![i.to_string(), "x".to_string()]).collect(),
    };
    assert_eq!(
        format_compact_table("t", &table, 2),
        "t: 4 rows\nA\tB\n0\tx\n1\tx\n... +2 more rows"
    );
    assert_eq!(
        format_compact_table("t", &table, 4),
        "t: 4 rows\nA\tB\n0\tx\n1\tx\n2\tx\n3\tx"
    );
}

#[test]
fn http_methods() {
    assert!(looks_like_http_method("GET"));
    assert!(looks_like_http_method("GET|HEAD|POST|PUT|PATCH|DELETE|OPTIONS"));
    assert!(!looks_like_http_method(""));
    assert!(!looks_like_http_method("GET|"));
    assert!(!looks_like_http_method("get"));
    assert!(!looks_like_http_method("ANY"));
}

#[test]
fn route_lines_are_read_back_without_dots() {
    assert_eq!(
        parse_route_line("  GET|HEAD   api/users ......... users.index > Users@index "),
        Some((
            "GET|HEAD".to_string(),
            "api/users".to_string(),
            "users.index > Users@index".to_string()
        ))
    );
    assert_eq!(
        parse_route_line("POST login"),
        Some(("POST".to_string(), "login".to_string(), String::new()))
    );
    assert_eq!(parse_route_line("POST"), None);
    assert_eq!(parse_route_line("Showing [2] routes"), None);
    assert_eq!(parse_route_line("   "), None);
}

#[test]
fn route_summaries() {
    let mut counts = MethodCounts::new();
    counts.increment("POST");
    counts.increment("GET");
    counts.increment("POST");
    assert_eq!(
        build_route_summary(strings(&["GET a", "POST b", "POST c"]), counts),
        "routes: 3 (GET=1 POST=2)\nGET a\nPOST b\nPOST c"
    );
    assert_eq!(build_route_summary(Vec::new(), MethodCounts::new()), "routes: 0");
}

#[test]
fn many_routes_give_a_short_summary() {
    let output: String = (0..200).map(|i| format!("GET  r{} ..... n{}\n", i, i)).collect();
    let result = filter_route_list(&output);
    let lines: Vec<&str> = result.lines().collect();
    assert_eq!(lines.len(), 82);
    assert_eq!(lines[0], "routes: 200 (GET=200)");
    assert_eq!(lines[1], "GET r0 n0");
    assert_eq!(lines[80], "GET r79 n79");
    assert_eq!(lines[81], "... +120 more routes");
}

#[test]
fn routes_of_a_table() {
    let long = "x".repeat(100);
    let output = format!(
        "| Verb | Path | Name | Action |\n| GET | / | home | {} |\n|  |  | lost | y |\n|  | z |  |  |\n",
        long
    );
    assert_eq!(
        filter_route_list(&output),
        format!("routes: 2 (=1 GET=1)\nGET / name=home action={}...\n z", "x".repeat(77))
    );
    assert_eq!(filter_route_list("| A |\n| b |\n"), "routes: 0");
}

#[test]
fn details_of_a_route_are_shortened() {
    let output = format!("GET / ... {}\n", "d".repeat(101));
    assert_eq!(
        filter_route_list(&output),
        format!("routes: 1 (GET=1)\nGET / {}...", "d".repeat(97))
    );
}

#[test]
fn migration_names() {
    assert_eq!(
        trim_migration_status_line("2014_users ........ [1] Ran"),
        "2014_users"
    );
    assert_eq!(trim_migration_status_line("a b ... Pending"), "a b");
    assert_eq!(trim_migration_status_line("Yes No"), "");
}

#[test]
fn migrations_in_text() {
    let output = "\n  Migration name ........ Batch / Status\n  2014_users ....... [1] Ran\n  2015_posts ....... Pending\n  unrelated\n";
    assert_eq!(
        filter_migrate_status(output),
        "migrations: 1 ran, 1 pending\npending:\n  2015_posts\nlatest ran:\n  2014_users"
    );
}

#[test]
fn migrations_in_a_table() {
    let output = "| Ran? | Migration | Batch |\n| Yes | a | 1 |\n| No | b |  |\n| No | c | 2 |\n| RAN | d |  |\n| Yes |  | 1 |\n";
    assert_eq!(
        filter_migrate_status(output),
        "migrations: 3 ran, 1 pending\npending:\n  b\nlatest ran:\n  a\n  c\n  d"
    );
}

#[test]
fn a_bar_without_space_before_it_belongs_to_the_name() {
    let output = r#"
| Ran? | Migration                                      | Batch |
| Yes  | 2014_10_12_000000_create_users_table          | 1     |
| Yes  | 2014_10_12_100000_create_password_resets_table| 1     |
| No   | 2026_06_28_120000_add_artisan_metrics        |       |
"#;
    assert_eq!(
        filter_migrate_status(output),
        "migrations: 2 ran, 1 pending\npending:\n  2026_06_28_120000_add_artisan_metrics\nlatest ran:\n  2014_10_12_000000_create_users_table\n  2014_10_12_100000_create_password_resets_table| 1"
    );
}

#[test]
fn many_migrations_give_a_short_summary() {
    let mut output: String = (0..45).map(|i| format!("p{} ... Pending\n", i)).collect();
    for i in 0..9 {
        output.push_str(&format!("r{} ... Ran\n", i));
    }
    let result = filter_migrate_status(&output);
    let lines: Vec<&str> = result.lines().collect();
    assert_eq!(lines.len(), 49);
    assert_eq!(lines[0], "migrations: 9 ran, 45 pending");
    assert_eq!(lines[41], "  p39");
    assert_eq!(lines[42], "  ... +5 more pending");
    assert_eq!(&lines[43..], &["latest ran:", "  r4", "  r5", "  r6", "  r7", "  r8"]);
}

#[test]
fn every_migration_is_counted_once() {
    let both = "x Pending Ran\ny Yes\n";
    assert_eq!(
        filter_migrate_status(both),
        "migrations: 1 ran, 1 pending\npending:\n  x\nlatest ran:\n  y"
    );
}

#[test]
fn keys() {
    assert_eq!(normalize_key("  Application Name "), "application_name");
    assert_eq!(normalize_key("(PHP) Version!"), "php__version");
    assert_eq!(normalize_key("caf\u{e9} 2"), "caf__2");
    assert_eq!(normalize_key("..."), "");
}

#[test]
fn keys_in_their_form_are_kept() {
    for key in ["Application Name", "__A-b__", "\u{e9}", "x"] {
        let once = normalize_key(key);
        assert_eq!(normalize_key(&once), once);
    }
}

#[test]
fn dotted_keys_and_values_are_read_back() {
    let kv = |k: &str, v: &str| Some((k.to_string(), v.to_string()));
    assert_eq!(split_dotted_key_value("Laravel Version ........ 11.9.0"), kv("Laravel Version", "11.9.0"));
    assert_eq!(split_dotted_key_value("Driver ... .env"), kv("Driver", ".env"));
    assert_eq!(split_dotted_key_value("Driver   ....    mysql"), kv("Driver", "mysql"));
    assert_eq!(split_dotted_key_value("a...b...c"), kv("a", "b...c"));
    assert_eq!(split_dotted_key_value("no dots"), None);
    assert_eq!(split_dotted_key_value("... value"), None);
    assert_eq!(split_dotted_key_value("key ....."), None);
    assert_eq!(split_dotted_key_value("key .. value"), None);
}

#[test]
fn fields_stand_under_their_heading() {
    let output = "Top ... 1\n\n  Cache\n  Config ... CACHED\n------\n| a | b |\nViews ... x\n";
    assert_eq!(
        collect_key_value_rows(output),
        vec!["top=1", "cache.config=CACHED", "cache.views=x"]
    );
}

#[test]
fn fields_are_shown_up_to_a_limit() {
    let output: String = (0..85).map(|i| format!("Key {} .... v\n", i)).collect();
    let result = filter_key_value_output("about", &output);
    let lines: Vec<&str> = result.lines().collect();
    assert_eq!(lines.len(), 82);
    assert_eq!(lines[0], "about: 85 fields");
    assert_eq!(lines[80], "key_79=v");
    assert_eq!(lines[81], "... +5 more fields");
}

#[test]
fn output_without_fields_is_its_table() {
    let table = "| K | V |\n| a | 1 |\n";
    assert_eq!(filter_key_value_output("about", table), "about: 1 rows\nK\tV\na\t1");
    assert_eq!(filter_db_show(table), "db:show: 1 rows\nK\tV\na\t1");
}

#[test]
fn fields_and_table_of_a_database() {
    let output = "Connection ... mysql\n\n| Table | Rows |\n| users | 12 |\n";
    assert_eq!(
        filter_db_show(output),
        "db:show: 1 fields\nconnection=mysql\n\ntables: 1 rows\nTable\tRows\nusers\t12"
    );
}

#[test]
fn the_longest_summary_of_a_database() {
    let mut output: String = (0..200).map(|i| format!("K{} ... v\n", i)).collect();
    for i in 0..100 {
        output.push_str(&format!("| t{} | {} |\n", i, i));
    }
    assert_eq!(filter_db_show(&output).split('\n').count(), 126);
}

#[test]
fn blank_output_means_success() {
    assert_eq!(filter_artisan_output("about", ""), "ok php artisan about");
    assert_eq!(filter_artisan_output("x", " \n\u{1b}[0m\t"), "ok php artisan x");
}

#[test]
fn output_that_is_not_recognised_is_kept() {
    for sub in ["route:list", "migrate:status", "about", "db:show", "tinker"] {
        assert_eq!(filter_artisan_output(sub, "hello\r\nworld\n"), "hello\r\nworld\n");
    }
    assert_eq!(filter_artisan_output("tinker", "\u{1b}[1mGET /\u{1b}[0m"), "GET /");
}

#[test]
fn escapes_do_not_hide_a_route() {
    assert_eq!(
        filter_artisan_output("route:list", "\u{1b}[33mGET\u{1b}[0m|HEAD  / ... home\n"),
        "routes: 1 (GET|HEAD=1)\nGET|HEAD / home"
    );
}

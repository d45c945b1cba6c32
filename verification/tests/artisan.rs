use artisan_cmd::command::{artisan_args, should_filter};
use artisan_cmd::filter::filter_artisan_output;

#[test]
fn test_artisan_args_preserve_flags_and_values() {
    let args = vec![
        "route:list".to_string(),
        "--path=api/v1".to_string(),
        "--columns=method,uri,name".to_string(),
        "quoted value".to_string(),
    ];

    assert_eq!(
        artisan_args(&args),
        vec![
            "artisan",
            "route:list",
            "--path=api/v1",
            "--columns=method,uri,name",
            "quoted value"
        ]
    );
}

#[test]
fn test_should_filter_only_known_safe_subcommands() {
    assert!(should_filter(&["route:list".into()], 0));
    assert!(should_filter(&["migrate:status".into()], 0));
    assert!(should_filter(&["about".into()], 0));
    assert!(should_filter(&["db:show".into()], 0));

    assert!(!should_filter(&["migrate".into()], 0));
    assert!(!should_filter(&["tinker".into()], 0));
    assert!(!should_filter(&["app:custom".into()], 0));
    assert!(!should_filter(&["route:list".into(), "--json".into()], 0));
    assert!(!should_filter(&["route:list".into()], 1));
}

#[test]
fn test_filter_route_list_table() {
    let output = r#"
+--------+----------+----------------+-------------+--------------------------------+
| Domain | Method   | URI            | Name        | Action                         |
+--------+----------+----------------+-------------+--------------------------------+
|        | GET|HEAD | /              | home        | App\Http\Controllers\Home@index |
|        | POST     | login          | login       | App\Http\Controllers\Auth@login |
+--------+----------+----------------+-------------+--------------------------------+
"#;

    let result = filter_artisan_output("route:list", output);

    assert!(result.contains("routes: 2"));
    assert!(result.contains("GET|HEAD / name=home"));
    assert!(result.contains("POST login name=login"));
    assert!(!result.contains("+--------"));
}

#[test]
fn test_filter_route_list_text() {
    let output = r#"
  GET|HEAD        / ................................................ home
  POST            login ............................................ login
"#;

    let result = filter_artisan_output("route:list", output);

    assert!(result.contains("routes: 2"));
    assert!(result.contains("GET|HEAD / home"));
    assert!(result.contains("POST login login"));
    assert!(!result.contains("................................"));
}

#[test]
fn test_filter_migrate_status_table() {
    let output = r#"
+------+------------------------------------------------+-------+
| Ran? | Migration                                      | Batch |
+------+------------------------------------------------+-------+
| Yes  | 2014_10_12_000000_create_users_table          | 1     |
| Yes  | 2014_10_12_100000_create_password_resets_table| 1     |
| No   | 2026_06_28_120000_add_artisan_metrics        |       |
+------+------------------------------------------------+-------+
"#;

    let result = filter_artisan_output("migrate:status", output);

    assert!(result.contains("migrations: 2 ran, 1 pending"));
    assert!(result.contains("pending:"));
    assert!(result.contains("2026_06_28_120000_add_artisan_metrics"));
    assert!(result.contains("latest ran:"));
    assert!(!result.contains("+------+"));
}

#[test]
fn test_filter_about_key_values() {
    let output = r#"
  Environment
  Application Name ................................ Laravel
  Laravel Version ................................. 11.9.0

  Cache
  Config .......................................... CACHED
"#;

    let result = filter_artisan_output("about", output);

    assert!(result.contains("about: 3 fields"));
    assert!(result.contains("environment.application_name=Laravel"));
    assert!(result.contains("environment.laravel_version=11.9.0"));
    assert!(result.contains("cache.config=CACHED"));
}

#[test]
fn test_filter_db_show_table() {
    let output = r#"
+----------+--------+-------+
| Table    | Size   | Rows  |
+----------+--------+-------+
| users    | 16 KiB | 12    |
| sessions | 32 KiB | 2048  |
+----------+--------+-------+
"#;

    let result = filter_artisan_output("db:show", output);

    assert!(result.contains("db:show: 2 rows"));
    assert!(result.contains("Table\tSize\tRows"));
    assert!(result.contains("users\t16 KiB\t12"));
    assert!(!result.contains("+----------"));
}

#[test]
fn test_filter_db_show_mixed_fields_and_table() {
    let output = r#"
  Connection ................................ mysql
  Database .................................. app_test

+----------+--------+-------+
| Table    | Size   | Rows  |
+----------+--------+-------+
| users    | 16 KiB | 12    |
+----------+--------+-------+
"#;

    let result = filter_artisan_output("db:show", output);

    assert!(result.contains("db:show: 2 fields"));
    assert!(result.contains("connection=mysql"));
    assert!(result.contains("database=app_test"));
    assert!(result.contains("tables: 1 rows"));
    assert!(result.contains("users\t16 KiB\t12"));
}

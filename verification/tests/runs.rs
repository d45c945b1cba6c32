use artisan_cmd::command::{artisan_command, is_passthrough_arg, plan, should_filter, CommandLine};
use artisan_cmd::outcome::{
    exit_code_from_status, exit_spawn_error, outcome, outcome_of_bytes, Exit, Outcome,
};

fn strings(items: &[&str]) -> Vec<String> {
    items.iter().map(|s| s.to_string()).collect()
}

#[test]
fn flags_that_are_handed_through() {
    for flag in ["--json", "--help", "-h", "-V", "--version", "--format=json", "--format=json-pretty"] {
        assert!(is_passthrough_arg(flag));
        assert!(!should_filter(&strings(&["about", flag]), 0));
    }
    for arg in ["--jsonx", "-v", "--format=txt", "", "about"] {
        assert!(!is_passthrough_arg(arg));
    }
}

#[test]
fn an_empty_command_line_is_handed_through() {
    assert!(!should_filter(&[], 0));
}

#[test]
fn commands() {
    assert_eq!(
        artisan_command(&strings(&["about", "a b"]), true),
        CommandLine {
            program: "php".to_string(),
            args: strings(&["artisan", "about", "a b"]),
            env: vec![("SKIP_ENV_VALIDATION".to_string(), "1".to_string())],
        }
    );
    assert!(artisan_command(&[], false).env.is_empty());
}

#[test]
fn a_plan_to_summarise() {
    let p = plan(&strings(&["route:list", "--path=api"]), 0, false);
    assert!(p.filtered);
    assert_eq!(p.command.args, strings(&["artisan", "route:list", "--path=api"]));
    assert_eq!(p.notice, None);
    assert_eq!(p.original, "php artisan route:list --path=api");
    assert_eq!(p.recorded, "rtk artisan route:list --path=api");
}

#[test]
fn a_plan_to_hand_through() {
    let p = plan(&strings(&["route:list"]), 2, false);
    assert!(!p.filtered);
    assert_eq!(p.notice, Some("Running: php artisan route:list".to_string()));
    assert_eq!(p.recorded, "rtk artisan route:list (passthrough)");
    let none = plan(&[], 0, true);
    assert!(!none.filtered);
    assert_eq!(none.original, "php artisan");
    assert_eq!(none.recorded, "rtk artisan  (passthrough)");
}

#[test]
fn exit_codes() {
    assert_eq!(exit_code_from_status(Some(3), None, "artisan"), Exit { code: 3, notice: None });
    assert_eq!(exit_code_from_status(Some(0), Some(9), "artisan"), Exit { code: 0, notice: None });
    assert_eq!(
        exit_code_from_status(None, Some(15), "artisan"),
        Exit {
            code: 143,
            notice: Some("[rtk] artisan: process terminated by signal 15".to_string()),
        }
    );
    assert_eq!(
        exit_code_from_status(None, Some(-2), "x").notice,
        Some("[rtk] x: process terminated by signal -2".to_string())
    );
    assert_eq!(
        exit_code_from_status(None, None, "artisan"),
        Exit { code: 1, notice: Some("[rtk] artisan: process terminated by signal".to_string()) }
    );
}

#[test]
fn programs_that_cannot_be_started() {
    assert_eq!(
        exit_spawn_error(true, "no such file"),
        Exit {
            code: 127,
            notice: Some("[rtk: failed to run php artisan: no such file]".to_string()),
        }
    );
    assert_eq!(exit_spawn_error(false, "denied").code, 1);
}

#[test]
fn a_success_is_summarised() {
    assert_eq!(
        outcome(&strings(&["about"]), true, 0, "Env ... local\n", "warning\n"),
        Outcome {
            stdout: "about: 1 fields\nenv=local\n".to_string(),
            stderr: "warning\n".to_string(),
            raw: "Env ... local\nwarning\n".to_string(),
            shown: "about: 1 fields\nenv=localwarning\n".to_string(),
            exit: None,
        }
    );
}

#[test]
fn a_failure_is_shown_as_it_is() {
    assert_eq!(
        outcome(&strings(&["about"]), false, 2, "Env ... local\n", "oops"),
        Outcome {
            stdout: "Env ... local\n".to_string(),
            stderr: "oops".to_string(),
            raw: "Env ... local\noops".to_string(),
            shown: "Env ... local\noops".to_string(),
            exit: Some(2),
        }
    );
}

#[test]
fn bytes_are_decoded() {
    let o = outcome_of_bytes(&strings(&["about"]), false, 1, b"a\xffb", "\u{e9}".as_bytes());
    assert_eq!(o.stdout, "a\u{fffd}b");
    assert_eq!(o.stderr, "\u{e9}");
    assert_eq!(o.raw, "a\u{fffd}b\u{e9}");
    let o = outcome_of_bytes(&strings(&["about"]), false, 1, "\u{e9}".as_bytes(), b"a\xffb");
    assert_eq!(o.stdout, "\u{e9}");
    assert_eq!(o.stderr, "a\u{fffd}b");
    let ok = outcome_of_bytes(&[], true, 0, b"", b"");
    assert_eq!(ok.stdout, "ok php artisan \n");
}

//! From the output of a subcommand to its summary.
use vstd::prelude::*;
use crate::ansi::{strip_ansi, stripped};
use crate::fields::{
    db_show, filter_db_show, filter_key_value_output, key_value_output, key_value_rows,
};
use crate::migrations::{filter_migrate_status, migrate_status, migrations_of};
use crate::routes::{filter_route_list, route_list, text_routes};
use crate::table::table_of;
use crate::text::{line_seq, same, trim, trimmed};

verus! {

/// What stands for output without escapes.
pub open spec fn plain_summary(subcommand: Seq<char>, clean: Seq<char>) -> Seq<char> {
    if trimmed(clean).len() == 0 {
        "ok php artisan "@ + subcommand
    } else if subcommand == "route:list"@ {
        route_list(clean)
    } else if subcommand == "migrate:status"@ {
        migrate_status(clean)
    } else if subcommand == "about"@ {
        key_value_output("about"@, clean)
    } else if subcommand == "db:show"@ {
        db_show(clean)
    } else {
        clean
    }
}

/// What stands for the output of a subcommand.
pub open spec fn summary(subcommand: Seq<char>, output: Seq<char>) -> Seq<char> {
    plain_summary(subcommand, stripped(output))
}

/// Summarises the output of `php artisan` for `subcommand`.
pub fn filter_artisan_output(subcommand: &str, output: &str) -> (r: String)
    ensures
        r@ == summary(subcommand@, output@),
{
    let clean = strip_ansi(output);
    if trim(clean.as_str()).is_empty() {
        let mut ok = "ok php artisan ".to_owned();
        ok.append(subcommand);
        return ok;
    }
    if same(subcommand, "route:list") {
        filter_route_list(clean.as_str())
    } else if same(subcommand, "migrate:status") {
        filter_migrate_status(clean.as_str())
    } else if same(subcommand, "about") {
        filter_key_value_output("about", clean.as_str())
    } else if same(subcommand, "db:show") {
        filter_db_show(clean.as_str())
    } else {
        clean
    }
}

/// Whether `clean` shows what the summary of `subcommand` is made of.
pub open spec fn is_recognised(subcommand: Seq<char>, clean: Seq<char>) -> bool {
    if subcommand == "route:list"@ {
        table_of(clean) is Some || text_routes(line_seq(clean)).len() > 0
    } else if subcommand == "migrate:status"@ {
        migrations_of(clean).ran.len() + migrations_of(clean).pending.len() > 0
    } else if subcommand == "about"@ || subcommand == "db:show"@ {
        table_of(clean) is Some || key_value_rows(clean).len() > 0
    } else {
        false
    }
}

/// Blank output gives one line that says that the command succeeded.
pub proof fn law_blank_output(subcommand: Seq<char>, output: Seq<char>)
    requires
        trimmed(stripped(output)).len() == 0,
    ensures
        summary(subcommand, output) == "ok php artisan "@ + subcommand,
{
}

/// Output in which nothing is recognised is kept whole, but for its escapes.
pub proof fn law_unrecognised_output_is_kept(subcommand: Seq<char>, output: Seq<char>)
    requires
        trimmed(stripped(output)).len() > 0,
        !is_recognised(subcommand, stripped(output)),
    ensures
        summary(subcommand, output) == stripped(output),
{
}

/// Output that is not blank is summarised by the function for its subcommand,
/// without its escapes; of any other subcommand it is kept.
pub proof fn law_each_subcommand_has_its_summary(output: Seq<char>, other: Seq<char>)
    requires
        trimmed(stripped(output)).len() > 0,
    ensures
        summary("route:list"@, output) == route_list(stripped(output)),
        summary("migrate:status"@, output) == migrate_status(stripped(output)),
        summary("about"@, output) == key_value_output("about"@, stripped(output)),
        summary("db:show"@, output) == db_show(stripped(output)),
        other != "route:list"@ && other != "migrate:status"@ && other != "about"@ && other
            != "db:show"@ ==> summary(other, output) == stripped(output),
{
    reveal_strlit("route:list");
    reveal_strlit("migrate:status");
    reveal_strlit("about");
    reveal_strlit("db:show");
    assert("route:list"@.len() == 10 && "migrate:status"@.len() == 14);
    assert("about"@.len() == 5 && "db:show"@.len() == 7);
}

} // verus!

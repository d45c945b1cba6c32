//! Compact summaries of what Laravel's `php artisan` prints.
//!
//! Only read-only, status-style subcommands are summarised. Every other command
//! line is handed through untouched, so that interactive, destructive or custom
//! commands keep their native behaviour.
pub mod ansi;
pub mod bounds;
pub mod command;
pub mod drawing;
pub mod field_laws;
pub mod fields;
pub mod filter;
pub mod migration_laws;
pub mod migrations;
pub mod outcome;
pub mod report;
pub mod route_laws;
pub mod routes;
pub mod table;
pub mod tally;
pub mod text;
pub mod text_laws;

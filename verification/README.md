# artisan_cmd

Compact summaries of what Laravel's `php artisan` prints for `route:list`,
`migrate:status`, `about` and `db:show`. Every other command line is handed
through.

- `src/` is the library, verified with Verus. `command` decides what is run and
  whether it is summarised; `filter`, `routes`, `migrations`, `fields` and `table`
  make the summaries; `outcome` decides what is printed and recorded. `text`,
  `ansi`, `report` and `tally` are what these are built from.
- The laws of the library are public proof functions: `bounds` (summaries are
  short), `drawing` (what is drawn is read back), `text_laws`, and `law_` functions
  next to what they speak of.
- `tests/` runs the library; `app/` starts `php` and prints.

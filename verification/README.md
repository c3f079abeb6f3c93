# means_core

The accounting layer of a personal ledger, with its behaviour stated in contracts and proved by
Verus: a chart of accounts per entity, journal entries made of postings that balance in the entity's
functional currency, statement lines as evidence, rules that draft entries, and reports.

- `src/` is the verified library. It decides; it reads no file, no clock and no database.
- `app/` is the store around it: SQLite, the inbox folder, email delivery and the Pluggy pull.
- `tests/` runs the library on concrete books.

Money is exact: amounts are counts of their commodity's minor unit. A sum that does not fit is an
error, never a wrapped number. Where the library calls another crate it does so in a small function
whose comment says what is believed of that call.

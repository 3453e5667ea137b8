# logirecon

A library for reconciling logistics bills: the bills of several freight
forwarders are parsed into one shape, validated and grouped by waybill, and
compared column by column with our own shipment details; the differences are
summarised and gathered into statistics.

The library is written in Verus: every function states what it does in its
`requires`/`ensures` contract, and Verus proves the code against it.

## Layout

- `src/text.rs`, `src/value.rs`, `src/table.rs`: text operations, cell values
  (decimals held in millionths, dates as days), and tables of named columns.
- `src/dates.rs`: calendar dates through `chrono`, the one outside crate the
  library calls (its functions are trusted, their contracts written down).
- `src/headers.rs`: the column names of each forwarder's sheets.
- `src/parser/`: one parser per forwarder (Wanbang and its variants,
  Tiansheng, Didadi with its price formulas, Jingyida) and one for our own
  shipment details.
- `src/validate.rs`: casting columns to their types and grouping rows by
  primary key.
- `src/reconcile/`: the reconciler (wide result, long result sorted by key
  and source) and its settings.
- `src/reader/`: finding a table in a worksheet grid by its headers.
- `src/runner/`: parsing by template, the freight and customs
  reconciliations, and the statistics of the differences.
- `src/ui.rs`: the screens' state and what each message does to it.
- `app/main.rs`: a command-line front end that reads workbooks with
  `calamine` and writes CSV files.
- `tests/`: tests run against the compiled library.

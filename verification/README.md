# manage_dan

A personal organiser built around a receipt printer: todo receipts and a
daily summary, notes kept with the `nb` notebook tool, lists and shopping
lists, projects, subsystem health (Go/NoGo), and finances kept in an
hledger journal.

`src/` is the library, written in Verus: every function carries a contract
and is proved against it. It holds the data of each subsystem and all of
their rules: the status combination, the receipt and ticket layouts, the
note and bookmark file formats, the lines `nb` prints, project naming, the
hledger journal text (written and read back, with round-trip laws), the
recurring schedules and their occurrence tracking, and what is read out of
hledger's reports. Amounts are integers (cents; interest rates in
hundredths of a percent).

`app/` is the program around it: loading the settings, making sure of the
SQLite tables, logging to a file, running `nb` and `hledger`, talking to the
USB printer, and the debt payoff projection, which compounds in floating
point over the library's verified reporting periods and schedules.

`tests/` exercises the library on concrete values.

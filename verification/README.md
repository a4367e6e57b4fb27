# gflog

Reading Grafana and Loki logs from the terminal: downloaded JSON exports, live LogQL queries, and
the Prometheus series behind dashboard panels. Records are brought into one shape (`ts, level,
service, pod, namespace, logger, thread, trace, msg, stack`) and shown in compact views.

The logic is a library that Verus verifies; `app/` is the command around it.

## Layout

- `src/text.rs`, `number.rs`, `order.rs`, `json.rs`: texts, numbers, stable orders and JSON values,
  each operation with its meaning over sequences.
- `src/patterns.rs`, `clock.rs`: regular expressions and the calendar, as the `regex` and `chrono`
  crates give them. Their results have names that contracts speak of.
- `src/record.rs`: log records, and the signatures that messages are clustered by.
- `src/views.rs` and `src/views/`: filters, counts, clusters, and the views `summary`, `errors`,
  `grep`, `trace`, `show`, `patterns` and `timeline`.
- `src/offline.rs`: exports.
- `src/live.rs` and `src/live/`: the base URL, credentials, the course of a call with its one
  refresh and one retry, windows of time, namespaces, requests, and replies.
- `src/dashboard.rs` and `src/dashboard/`: URLs of dashboards, short links, panels, variables,
  ranges, queries, series, and what is printed of them.
- `app/`: the command line, files, HTTP, and floating point.

A view gives lines, a JSON value or a failure; the command prints them. What depends on the clock,
the environment, a file or a reply is handed to the library as a plain value.

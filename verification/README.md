# xray-sub-manager

A service that fetches proxy subscriptions, probes their nodes through one or
more modems, and publishes the nodes that work as one subscription.

`src/` is the library, written and proved in Verus: reading and writing of node
links and subscriptions, removal of duplicates, naming, settings and their
validity, the cache, progress and statistics, the schedule, the course of an
update for each modem, the SOCKS5 exchange, the settings of sing-box, and what
the web panel and the subscription address answer.

`app/` is the program around it: files, HTTP, sockets, processes and the
asynchronous tasks. It turns what comes in into the library's values and does
what the library says.

`tests/` runs the library on concrete values.

## What is trusted

Calls into other crates stand behind small wrappers whose contracts are believed
and not proved. They are in `codec.rs` (UTF-8, percent escapes, form queries,
base64, URLs, SHA-256), `json.rs` (serde_json), `clock.rs` (chrono) and
`config.rs` (uuid); `text.rs` and `renamer.rs` specify two functions of the
standard library.

## Modules

| Modules | What they hold |
| --- | --- |
| `items`, `text`, `strmap`, `failure` | texts, ordered maps, messages |
| `codec`, `json`, `fields`, `roundtrip` | encodings, documents, and what is read back of what was written |
| `node`, `uri`, `link`, `singbox`, `parser`, `encoder` | nodes, their links, subscriptions |
| `dedup`, `renamer` | duplicates and display names |
| `config`, `paths`, `cache` | settings, files, what updates found |
| `clock`, `schedule`, `update`, `branch`, `probe`, `health`, `tunnel` | when and how updates and checks run |
| `progress`, `events`, `stats`, `web` | what is shown and answered |

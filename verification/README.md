# bini_server

The verified core of a production server for Bini.js apps. The server serves a built site from
`dist/` and hands `/api/*` to a Node.js process that runs the handlers under `src/app/api/`.

`src/` is a Verus library. It holds the decisions that the server makes, each with a contract:

| Module | What it decides |
|---|---|
| `settings` | limits, ports and directories, as the environment gives them |
| `env_file` | which variables the `.env` files set |
| `startup` | what is checked before the server runs, in which order, and what ends it early |
| `ports` | which port is tried next |
| `node` | which Node.js will do, what it is told, and whether it came up |
| `proxy` | which request goes to the API process, and which reply comes back |
| `reply` | the health check, JSON errors and the headers that every response carries |
| `headers` | what header maps hold |
| `cache` | how long a response may be cached |
| `network` | under which address other machines reach the server |
| `console` | the banner and the keys |
| `text` | trimming, splitting and decimal numbers |

`app/` is ordinary Rust round the library: it reads files, binds ports, runs Node.js, talks HTTP,
and does what the library says. `tests/` runs the library on concrete values.

## What is trusted

The proofs rest on contracts for a few functions of other crates and of std: header maps, names and
values of `axum::http`, `uuid::Uuid::new_v4`, `serde_json::from_str`, and `String::push`,
`str::to_lowercase`, `String::from_utf8_lossy` and `Debug` of std. Each stands in one small
function whose comment says what is claimed.

## What is proved of the whole

- Variables of the real environment are never overwritten, and of two definitions in `.env` files
  the first one counts. A comment after a value is no part of it.
- A running server holds the lowest free port of its range, and its API process another one above.
- No server runs without a built site, a Node.js that will do, and an API process that came up; and
  one does run where nothing of this is missing.
- No hop-by-hop header of the API process reaches a client, and no header of a client reaches the
  API process but those that are handed on.
- A request keeps its identifier on the way to the API process and back.
- Pages are always revalidated. A response that has a cache policy keeps it, and no other header
  changes.

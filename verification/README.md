# remarkable_server

A self-hosted server for reMarkable tablets, its logic verified with Verus.

- `src/` is the library. Each function states in its contract what it returns or changes, and Verus
  proves it. What the library calls of other crates stands behind small functions whose doc comments
  say what is claimed of the call.
- `tests/` runs the library on concrete values.
- `app/` is the server around it: command line, listeners, routes, HTTP clients, the database and
  the file system.

## The library

| module | what it holds |
| --- | --- |
| `config` | command line, environment, where files are kept |
| `error` | the errors that requests are answered with |
| `protocol` | the answers of the sync protocol versions |
| `oauth` | the device login: codes, polling, approval, tokens |
| `rate` | how often device codes are given out, and to whom |
| `passcode` | passcode resets and who may decide on them |
| `mdm` | the queue of instructions for managed devices |
| `notifications`, `mqtt_ws`, `mqtt` | notifications over WebSocket, MQTT packets and sessions, the broker's settings |
| `integrations` | cloud storage: logins, URLs, listings, conflicts, and full and delta syncs one step at a time |
| `readlater`, `readlater_api` | read-later services, their articles, storage rows and conversion |
| `json_scan`, `json_grammar` | a streaming scanner of JSON objects, and the grammar it keeps to |
| `text`, `table`, `codec`, `clock` | characters, keyed lists, encodings and times |

Laws that relate several functions are public proof functions whose names start with `law_`.

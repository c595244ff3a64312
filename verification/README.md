# bit

A small bookkeeping toolkit: a note and ledger language, a document store that
syncs actions between clients and a server, a block file system image, and a
terminal text buffer. The logic lives in `src/` and is verified with Verus;
`app/` holds the command line program, file and network I/O, and the serde
copies of the library's types.

## Layout of `src/`

| module        | what it holds |
|---------------|---------------|
| `text`        | char-level string helpers (`lines`, `trim`, number parsing) |
| `date`        | calendar dates and the chrono calls that parse them |
| `parser`      | the note language: pre-processing, expressions, parameters |
| `cmd_parser`  | the `key value` command line format |
| `note`        | notes built line by line, with their checks |
| `ledger`      | accounts, bookings, balances and turnovers |
| `sync`        | action objects, commits, documents and their statuses |
| `repo`        | the repository: commit logs, server merge, client sync, history |
| `corelib`     | the account/partner index, its repository facade (`IndexDb`) and the project context |
| `walnut`      | the file system image: groups, block bitmaps, inodes, directories |
| `frame`, `parse` | the framed token format and its reader |
| `transaction`, `tools`, `inspector`, `file`, `project`, `settings`, `config`, `model` | the project level pieces |
| `db_sync`     | signing and patching helpers of the second sync variant |
| `editor`      | the text buffer of the editor: rows, edits, save |

Laws that span several functions are public proof functions named `law_*`.

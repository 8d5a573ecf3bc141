# clipster

Clipboard history for Linux: a daemon records what is copied, a command line
client and a picker window get it back.

The library in `src/` holds what the programs decide, verified with Verus. The
programs in `app/` do the talking: to the X server, to the socket, to the file
system, to the screen.

| Module | What it is about |
|---|---|
| `text`, `hash`, `clock` | previews, trimming, decimal numbers; content hashes; timestamps |
| `sqlite`, `history`, `store` | the SQL statements, what a history is and what holds of it, the store |
| `ipc`, `server` | requests and responses, how the daemon answers |
| `config`, `paths`, `session` | configuration, directories, session types |
| `events`, `transfer`, `source`, `capture` | from a change of the X selection to an entry |
| `cli`, `clipboard` | what a command asks and prints, handing content to a clipboard tool |
| `filter`, `ranking`, `rows`, `picker` | fuzzy matching, the order of rows, their text, the picker's state |

What is taken on trust stands next to a doc comment that says so: the SQL
statements in `sqlite`, SHA-256 in `hash`, Unicode properties and case mapping
in `text` and `filter`, UTF-8 decoding in `transfer`, the system clock in
`clock`. What the SQL statements do is claimed of a database that nothing else
writes to and whose table the library made; `sqlite::is_own` stands for that.

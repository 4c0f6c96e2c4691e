# rsedis

The core of a small Redis-compatible server, written in Verus: the code is proved to
meet the contracts stated on it.

`src/` is the verified library:

- `parser` reads the wire protocol (`*count`, `$length`, bytes) into commands;
  `lemma_parse_encoded_command` shows that a command in wire form reads back as itself.
- `response` writes replies in wire form.
- `value`, `list` and `keyspace` hold strings, lists and sets; `database` is the
  keyspace of numbered databases with expirations, modelled as maps.
- `command` holds the command handlers and the dispatcher `command`; each handler's
  reply and its effect on the keyspace are stated over the model.
- `session` decides what a connection does with the bytes it reads; `logger` decides
  what the logging thread does with each request.
- `rdbutil` and `decimal` give the dump encodings and decimal numbers.
- `laws` states what holds across calls: what a read gives back of a write, what one
  operation undoes of another.

`app/` is the program around it: sockets and threads (`networking`), the logging
thread's outputs and syslog (`logger`), `MONITOR`, and `INCRBYFLOAT`, which computes on
floating-point numbers.

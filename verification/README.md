# relos

A replicated table store on a shared log, written in Rust and verified with
Verus.

    +------------------------------+
    |          DelosTable          |   create, drop, put, delete, get, scan
    +------------------------------+
    |  batching, view tracking,    |   layers of the engine stack (optional)
    |  observer                    |
    +------------------------------+
    |          BaseEngine          |   plays the log into the local store
    +------------------------------+
    |          VirtualLog          |   chains loglets into one log
    +----------+---------+---------+
    |  loglet  |  loglet |   ...   |   in memory, or on replicated log servers
    +----------+---------+---------+

Writes are proposed to the log as commands and take effect when the engine
applies them. Reads sync with the log first and then look into the local store.

## Layout

- `src/base`: positions, errors, entries, and their byte encodings
- `src/store`: the transactional local store
- `src/log`: loglets, chains, the virtual log, and the replicated loglet
- `src/engine`: the base engine, the layers above it, and the stack builder
- `src/table`: schemas, rows, commands, and the table interface
- `src/server`: request handling for clients
- `app`: the server program, with the channels and tasks around the library
- `tests`: tests of the compiled library

The functions of `src` carry contracts over a mathematical model of their data:
byte sequences, maps, and the state of a log, an engine or a table. Where the parts
below do not fail the results are exact. Where a loglet, a register or a store of
the user's may fail, the contracts say what success means, and which errors come
from the library itself; of an error from below they say that it is an error, and
as far as possible what stays as it was. The two functions that read the clock
promise nothing of their result, and the methods of a metrics reporter no more than
that it was told. The modules whose names end in `laws`, and
the sections headed `Laws`, hold what is proved of several operations together,
such as that a row that was put is read back, also through the layers of a stack,
that replicas that play the same log hold the same, that trimming up to the least
announced cursor is harmless, and that a log that was sealed and reconfigured loses
no entry.

The library rests on a few statements about other crates that are not proved
here: the functions in `src/base/codec.rs` that call bincode, the one in
`src/table/keys.rs` that calls hex, the one in `src/engine/batching.rs` that makes
a duration, and the two in `src/engine/observer.rs` that read the clock.

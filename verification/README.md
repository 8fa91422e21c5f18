# wrapperd

The front end of a supervisor that stands before a worker process: an HTTP service and a
decrypt service on a raw TCP port. The library in `src/` holds as verified code what is decided
about requests, frames and answers. `app/` opens the sockets, reads and writes, sets the timeouts,
writes the log, and hands each event to the library; it passes a failed read of an HTTP request on
as it is.

- `head`: reading a request head in bounded memory
- `request`, `query`: from the bytes of a request to what is to be done for it
- `json`, `response`: documents and the bytes that are sent back
- `connection`: one HTTP connection as a state machine
- `batch`: the payloads of the decrypt wire format
- `decrypt`: one decrypt client as a state machine
- `config`, `error`, `bytes`, `text`: settings, errors and helpers

The contracts speak of three things that are computed elsewhere: how `httparse` takes a request
head apart, how `serde_json` reads and writes documents, and how `String` stands in for bytes
that are not UTF-8. Their results are named in the contracts. Beside the names stand only short
facts, such as that bytes after a complete request head do not change how it is taken apart.

`app/` asks for a worker and for the framing of the decrypt wire through two traits. Without an
implementation of them the program reports that no worker is attached and exits.

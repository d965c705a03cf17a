# bifrost_gate

A monitoring and operations agent for StrongSwan/IPsec: an HTTP(S) API for the
topology of the tunnels, Prometheus metrics, control of peers and of the
service, and management of connections, secrets, certificates and a catalogue
of response codes, plus the administrative command line `bifrostctl`.

## Layout

- `src/` is the library, verified with Verus. It holds the logic of the agent as
  functions from plain values to plain values, each with a contract:
  - `text`, `json`, `models`, `types`: text handling, a JSON value, and the data
    the API exchanges;
  - `engine`: the topology built from the output of `swanctl`, and the alerts
    raised when a link changes state;
  - `connections`, `secrets`, `certificates`, `resources`, `listing`: the files
    under `/etc/swanctl`, how they are written and read back, and the answers of
    the API's operations on them. Each operation that touches the files is a
    state machine: a start function checks the request, and a step function takes
    the outcome of each piece of work (a file checked, written, read or removed, a
    reload) and says what to do next or what to answer. A secret whose reload
    fails is put back as it was;
  - `peers`, `control`, `commands`: parsing of peer status, the steps of bringing
    a peer up or down, and the commands run for them;
  - `access`, `auth`, `store`: API keys, Basic authentication of the
    documentation's users, password hashes;
  - `i18n`, `response_codes`, `catalogue`, `pdf`: localized messages, the
    catalogue of response codes and its PDF report;
  - `cli`, `settings`, `logging`: `bifrostctl`, the configuration and the
    logging decisions;
  - `laws`: properties of the library as a whole, proved.
- `tests/` runs the library on concrete values.
- `app/` is the program around the library: the HTTP server, the SQLite
  database, process execution, file I/O, logging and the `bifrostctl` entry
  point.

# cmppprotocol

A CMPP 2.0 client library for service providers that connect to a gateway (ISMG), verified with
Verus.

`src/` is the library. It holds everything that a client decides or computes, with contracts:

- `wire` says what each message holds and which bytes spell it; `octets`, `text` and `buffer` are
  the parts that this is made of. `pdu` encodes and decodes messages, `codec` cuts a byte stream
  into frames.
- `encoding` encodes and decodes texts and splits long ones into segments; `submit` makes SUBMIT
  messages of them.
- `config` and `error` are the settings and the errors.
- `connection` is the state of a connection and each step on it:
  - `handshake`: the login;
  - `sequence`: the sequence ids;
  - `udh`, `message`: the references of long messages, and messages under them;
  - `events`: the reports to the user and their bounded queue;
  - `outbound`, `writer`: what is written, when, and what that means;
  - `reader`: what a frame of the peer calls for;
  - `timeouts`, `timing`: what is done when a response does not come, and how long that takes;
  - `session`: the state that all of these share;
  - `steps`: every step that this state can take, and what holds of every run of them;
  - `lifecycle`: who still holds a connection, and who closes it.

Laws that relate several functions are public proof functions at the end of the module that they
are about.

`app/` is the asynchronous client around the library: sockets, channels, timers and tasks on
`tokio`. Each task waits for something to happen, hands it to the state of the connection, and does
what that calls for.

`tests/` runs the library on concrete values.

# relay

A relay exposes HTTP services that run behind clients without a public address.
A client opens a control channel, proves that it knows the token of a tunnel,
and lends data channels to it. A visitor sends a plain HTTP request, which is
routed by its `Host` header to the tunnel of that host and forwarded on one of
the data channels.

The library in `src/` holds every decision of the relay and is verified with
Verus. It does no I/O.

| module         | what it decides                                                  |
|----------------|------------------------------------------------------------------|
| `config`       | whether a configuration describes a relay                        |
| `token`        | hashes of tokens, and the responses that prove knowledge of them |
| `protocol`     | digests and messages                                             |
| `registry`     | which tunnels there are, by digest and by host                   |
| `host`         | the form of a host that tunnels are registered under             |
| `http`         | where a header ends, which host it asks for, how it is refused   |
| `ingress`      | how a request is read, routed and refused                        |
| `control`      | the handshake of a client and what is sent on its channel        |
| `data_channel` | how a data channel is opened for a visitor                       |
| `maps`         | control channels by service and by session                       |
| `server`       | what the relay starts with and how it reacts to events           |
| `text`         | text and sequences                                               |

Calls into `sha2`, `hex`, `rand` and `url` stand behind small wrappers, whose
contracts are trusted.

`app/` puts the library on the network with `tokio`: it owns the sockets, tasks
and timers, and the messages as they travel.

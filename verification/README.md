# matrix_channel

A channel adapter for the Matrix Client-Server API, verified with Verus.

The library in `src/` decides; it never touches the network. It says which
requests to make, reads the replies, turns timeline events into channel
messages and drives the sync loop as a state machine. The service in `app/`
performs what the library decides: HTTP, timers and tasks.

- `adapter`: an account on a homeserver; sending and starting.
- `startup`: who the adapter is, and where it begins to read.
- `sync`: the sync loop, from state and event to next state and action.
- `events`, `content`, `seen`: which events become messages, and what they say.
- `delivery`: splitting a text and putting its pieces one after the other.
- `requests`, `replies`, `json`, `text`, `token`, `types`: what these are made of.
- `outside`: everything that is believed of other crates, and nothing else is.
- `adapter_laws`, `event_laws`, `sync_laws`, `text_laws`: what holds of the library as a whole.

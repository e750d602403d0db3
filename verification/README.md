# siprs

A SIP/SDP protocol core for GB28181 video platforms, written in Verus.
The library under `src/` is proved by Verus against its contracts; its
only trusted parts are thin wrappers around the standard clocks, string
appending and the `uuid` generator.

- `src/sdp`: SDP session descriptions — types, builder, parser and writer
  (`roundtrip.rs` proves that parsing a written description gives it back,
  `parsed.rs` that this holds of every parsed description whose text had
  an `o=` line),
  and the GB28181 extensions (`y=`/`f=` lines, playback and download
  sessions, NTP time conversions).
- `src/message`: SIP URIs (`uri.rs`, with the read-back law in
  `uri_roundtrip.rs`), Contact and From/To values, header names and line
  unfolding, the values of headers and ordered header collections, the
  size limit and framing of messages in a stream, and status lines.
- `src/transaction`: transaction identifiers and the INVITE client and
  non-INVITE server state machines, as pure functions from state and input
  to next state and actions.
- `src/transport.rs`: the transport a request URI selects.
- `src/registration.rs`: the registrar address of an address-of-record and
  the decisions of a client registration, one step function per event
  (an answer by status class, a refresh, a removal, an expiry check); the
  caller performs the returned action (build and send the REGISTER, compute
  the Digest answer, announce the event).
- `src/ua`: the GB28181 device registry (registration, heartbeats, catalogs,
  cascaded platforms, subscriptions, device tree).
- `src/clock.rs`: the wall and monotonic clocks; `src/text.rs`: character
  level text primitives.
- `app/`: an asynchronous, shareable facade over the device registry
  (a `tokio` mutex and event channel) and the GPS positions of devices.
- `tests/`: executable tests of the library.

## What is not here

- The device registry keeps its devices in a `Vec` whose well-formedness
  says that no device id occurs twice, in place of a hash map keyed by
  device id. vstd specifies what a `HashMap` holds only for key types
  that obey its key model (`obeys_key_model`), which it grants to the
  primitive integer types and `bool`; `String` is not among them and the
  model can only be granted to it by an assumption. With a `String` key
  even `m@.len() == 1` after one `insert` into an empty map does not
  verify (with a `u64` key it does).
- The parsing of whole messages and header sections
  (`MessageParser::parse`, the message that `parse_streaming` returns once
  `MessageParser::frame` has found where it ends, `parse_headers`), the
  typed Via, CSeq, Route, Allow and authentication values of a header
  (`parse_header_value` keeps such values raw, with a warning, as it cannot
  tell a good one from a bad one), transaction keys built from whole
  messages (`TransactionKey::from_request`, `from_response`), message
  writing (`MessageBuilder::build`) and the ACK a client transaction
  builds: they rest on the Via, CSeq, Route and authentication header
  types and on the request and response types, whose definitions are not
  part of this project's sources. `parse_headers` itself would be a short
  loop over `parse_header_value` into a `HeaderCollection` (both here),
  but what it promises of a good Via or CSeq line (a typed value and no
  warning) needs those grammars.
- `RegistrationManager` itself: its table of registrations, the REGISTER
  requests it builds and the Digest answers it computes rest on the same
  missing types and on the registration types and authentication module;
  its decisions are the step functions of `src/registration.rs`. Which
  registrations need a refresh depends on the configured threshold and on
  `needs_refresh`, whose definitions are not available, so that check is
  not modelled; the expiry check takes the seconds left as computed by the
  caller.
- The transaction key, destination and transport of a client transaction:
  the key is read from the request, the destination is a socket address,
  and which transports are reliable is defined with the transport types;
  the state machines take the reliability as a flag.
- `TransactionManager`, `TransportManager`, the UDP/TCP/WebSocket
  transports and `SipEngine`: sockets, tasks and channels.
- Device GPS positions (`DevicePosition`, `update_position`,
  `get_position`): floating point; they live in `app/`.

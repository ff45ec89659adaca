# cross-platform-vpn

Imports IPsec VPN profiles, drives strongSwan's `charon` over its vici protocol, and decides what a
privileged broker may do for an unprivileged client. The library is verified with Verus: every
function states what it returns in terms of mathematical models of its inputs.

- `src/` is the library.
  - `ncp`, `sophos`: the profile formats and their importers.
  - `model`, `swanctl`, `dump`, `cli`: the connection, and how it is rendered and printed.
  - `vici`: the message encoding and the packet exchange, without the socket.
  - `control`: the messages for `charon`, and the connect and disconnect flows as state machines.
  - `broker`: requests and their validation, the registry of SSL tunnels, the dialogue with
    OpenVPN's management interface, DNS rules, installation plans.
  - `text`, `ini`, `ipv4`, `json`, `property_list`, `plist_scan`: what the others are built from.
- `tests/` runs the library on concrete inputs.
- `app/` holds the programs around it: arguments, sockets, processes, files and services.

What is not proved is marked in `src/`: the functions of `serde_json`, `plist` and the standard
library that are called have contracts of their own, each with a comment that says what is claimed.
Functions named `law_...` state what holds of the library as a whole, for example that no warning,
error or dump can repeat a pre-shared key, that decoding a message gives back what was encoded, or
that no two tunnels share an adapter slot.

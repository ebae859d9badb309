# adbmdns

A partial mDNS client (RFC 6762) for adb: it only queries for the adb services
and follows their resource records, probing them when they are about to expire
and forgetting them when they do.

The library (`src/`) is written in Verus and verified:

- `index_min_pq`: the min priority queue of records that need attention, whose entries are
  found again by their identity;
- `vec_map`: the small maps and sets that the state machine keeps;
- `rr`, `store`: resource records and the store of those received;
- `zero_config`: the state machine that takes the received packets (decoded
  with simple_dns) and the time and gives
  commands (queries, service creation, update and deletion), with the laws
  that it keeps;
- `driver`: the encoding of queries and what the driver does for each command;
- `netwatch`: the debouncing of network change events;
- `netlink`, `route`, `wlan`: the decisions of the network watchers of Linux,
  macOS and Windows, and the text of their messages;
- `text`: decimal text of integers.

`app/` holds what talks to the outside world: the C bridge, the sockets of the
driver, the threads and the native network monitors. `tests/` runs the library
on concrete scenarios.

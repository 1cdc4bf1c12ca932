# cmux-sidebar-agents

A cmux sidebar that lists the AI agents reported to cmux and their recent
notifications, with the logic verified by Verus.

- `src/` is the verified library: agent rows and their order (`model`), the stable
  sort they rely on (`sort`), text helpers (`text`), JSON replies of the cmux socket
  (`json`, `protocol`), decoding the workspace tree with the cmux client's types
  (`decode`), what the sidebar draws (`ui`), and the sidebar's state and
  decisions on keys, ticks, polls and lost connections (`sidebar`).
- `app/` is the program around it: the terminal, the socket client, the clock and the
  environment, and conversions between the outside crates' types and the library's.
- `tests/` exercises the library on concrete values.

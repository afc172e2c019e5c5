# Mx

Mx lets an AI agent build, run, inspect and control iOS apps in the
Simulator, from a command line or as an MCP server.

- `src/` is the library, verified with Verus: build-log diagnostics,
  simulator selection and admission, the service-profile planner and its
  receipts, UI selectors, revisioned UI snapshots with stable element
  references, the accessibility tree (flattening, hashing, compaction), the
  guest wire format, HID messages, MJPEG frame cutting and the browser
  viewer's HTTP handling, log buffers, and the project discovery rules.
- `app/` is the program around it: the `mx` command line, the MCP server,
  the browser viewer, subprocesses (`xcrun simctl`, `xcodebuild`, AXe), the
  `mx-guest` socket client, and the state directory.
- `tests/` exercises the library.

The service profiles read their runtime catalog from the file named by
`MX_CATALOG_PATH`, or from `mx-runtime-ios-26.5.json` beside the executable.

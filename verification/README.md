# dt_cert_uploader

Uploads three TLS certificate files to a Dronetag device over a multiplexed serial line,
and reads and writes its MQTT settings.

- `src/` is the verified library: SLIP framing (`slip`, `mux`), the device table (`device`),
  certificate files (`certs`), the order of an upload (`upload`) and of a settings read
  (`settings`), text that comes in pieces (`pieces`), MQTT settings as JSON (`mqtt`, over
  `json`), the state behind the window (`panel`), what the command line tool prints
  (`report`), and text helpers (`text`).
- `app/` owns the serial port, the files and the window. It performs the steps that the
  library asks for and hands back their outcomes.
- `tests/` runs the library with the real `serde_json`.

Contracts that are believed rather than proved stand in `json` (functions of `serde_json`)
and `text` (functions of the standard library); each says so in its doc comment.

# programmer_core

The core of an ESP32 flashing tool, written in Verus: firmware images,
package manifests and folders, partition tables, OTA slot selection, the UART
boot marker, the flashing runs as state machines, and the firmware packager.
Every function in `src/` carries a contract that Verus proves.

- `src/` — the verified library. `workflow.rs` decides what an update or a
  production run does next from what the board reported; `ota.rs` reads
  partition tables and `otadata` and chooses where an update goes;
  `loading.rs` and `package.rs` check packages; `packager.rs` plans a package
  from an ESP-IDF build.
- `app/` — the command-line program around it: files, serial ports, the
  `espflash` session, JSON and CSV.
- `tests/` — tests of the library on concrete values.

The calls into outside crates made from `src/` are `sha2` and `md-5` (in
`digest.rs`) and UTF-8 decoding (in `text.rs`); their contracts are stated in
the doc comment of each wrapper.

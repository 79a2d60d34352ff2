# cdc_badge

The logic of a conference badge firmware (keypad, e-paper menu screens, BLE scanning and a
GATT messaging screen), written in Verus with its contracts proved.

- `src/` is the verified library: key debouncing state (`buttons`, `pressed`), the screens'
  state machines (`app`, `apps::{keypad, scanner, receiver}`), the table of scanned devices
  (`contacts`), advertising data and GATT packets (`ble`), the e-paper frame buffer and refresh
  schedule (`drawer`), the charger register settings (`charger`), and text formatting (`text`).
  Collections of `heapless`, list navigation of `ratatui`, advertising encoding and decoding of
  `trouble-host` and tick arithmetic of `embassy-time` are called through small trusted
  wrappers whose contracts follow those crates' sources.
- `app/` is the firmware around it: the Ariel OS tasks, the I2C, SPI and BLE drivers, and the
  ratatui rendering, which hand plain values to the library and act on what it returns.
- `tests/` runs the library on concrete values.

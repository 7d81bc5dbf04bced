# astral-watch

Per-pin **12V-2x6 / 12VHPWR** power monitoring and connector-melt early-warning for
**ASUS ROG Astral** GPUs on Linux, with its logic verified by Verus.

- `src/` — the library. What the program reads off the chip, decides and prints is a function
  with a contract here; `law_*` proof functions state what holds across functions: a loss of
  telemetry never resolves or confirms an alert, a steady fault raises on time and is announced
  once, a raise never waits in a queue, every CSV row reads back column by column, a cap only ever
  lowers the power limit of the monitored card and, once engaged, is held through any run.
- `app/` — the program around it: arguments, files, sockets, threads, the i2c device nodes, NVML,
  and the terminal.
- `tests/` — the library from outside.

| module | holds |
|---|---|
| `decode`, `alert` | the telemetry block, and what is wrong with a reading |
| `lifecycle`, `lifecycle_laws` | raising, repeating and resolving alerts |
| `i2c`, `cards`, `smi` | the chip, its bus, the card it belongs to |
| `monitor`, `logger`, `metrics`, `metrics_laws`, `exporter`, `notify` | the watchdog and its sinks |
| `safety` | the opt-in power cap |
| `dashboard`, `panels` | the full-screen view |
| `recorder` | the register reads made, for the proofs about them |
| `double`, `big` | the arithmetic of 64-bit floating point, and the natural numbers under it |
| `config`, `clock`, `number`, `text` | settings, time, numerals, text |

Readings are integers in the chip's units. What is worked out from them — totals, ratios, limits,
shares — is floating point, bit for bit: `double` defines each operation as the representable
number nearest to the exact result, halves to even, and prints and reads decimals exactly.

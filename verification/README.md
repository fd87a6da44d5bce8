# sysctrl

A system monitor and fan controller for Linux desktops. It reads CPU, GPU,
RAM, disk and fan state from `/proc`, `/sys` and a few command-line tools,
and sets fan duty cycles through a small privileged helper.

## Layout

- `src/` — the verified library (Verus). Everything that decides or parses
  lives here, as functions on plain values with `requires`/`ensures`
  contracts:
  - `text.rs`: specifications of the string operations the parsers use
    (trimming, splitting into lines and words, decimal parsing) and their
    executable counterparts.
  - `host.rs`: hostname, `/etc/os-release` and `uname` parsing.
  - `ram.rs`: `/proc/meminfo` totals and `dmidecode` memory metadata.
  - `cpu.rs`: hwmon selection for the CPU temperature, `/proc/stat`
    counters, frequency sources.
  - `fan.rs`: fan discovery, labels, PWM ↔ percent conversion and the
    write target of a duty-cycle request.
  - `helper.rs`: argument and path validation of the privileged helper.
  - `gpu.rs`: vendor detection and the AMD, Apple and Intel readers.
  - `disk.rs`: block-device names, partition stripping and model lookup.
  - `sensors.rs`: the fan and disk backend traits and their no-op backends.
- `tests/` — tests of the library on concrete inputs.
- `app/` — the desktop program around the library: file and process I/O,
  the Tauri commands and polling loop, NVML, the mock backends and the
  floating-point readings shown in the UI.

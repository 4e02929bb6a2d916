# mcp-nordic-ppk2

An MCP server for the Nordic Power Profiler Kit II (PPK2), with a verified core. A
client connects to the device, powers a DUT in source mode, captures current, reads the
eight digital channels and uses them as triggers; it gets summary statistics or a CSV.

## Layout

- `src/` is the core, verified with Verus. It holds no device, no clock and no file: a
  tool call says what is to be done, and goes on when it is told what came of it.
  - `server` — the tools, their defaults, checks and answers.
  - `controller` — the state machine of one device.
  - `samples` — the rolling window and the running statistics of a session.
  - `figures` — what holds of those statistics: they are finite, and in order.
  - `capacity` — how many samples a rolling window or a capture keeps.
  - `voltage` — the limits of the source voltage, and the operator's ceiling.
  - `trigger` — trigger patterns and packed pin states.
  - `ports` — which serial port is the device's control port.
  - `mode`, `csv`, `report`, `error`, `text` — names, lines and texts.
  - `ieee`, `arith`, `rounding` — floating-point values as bit patterns, their order, and
    `binary64` arithmetic on them in integers.
  - `laws` — what holds over several operations.
- `tests/` runs the core.
- `app/` is the program around it: the serial device, the drain thread, files, the decimal
  text of floating-point values, and the MCP service on stdio.

## Safety

- A source voltage outside 800–5000 mV, or above the operator's ceiling, is rejected,
  never clamped. `laws::lemma_never_above_ceiling` states it for every run of calls.
- The ceiling is set with `--max-voltage-mv <mV>` or `PPK2_MAX_VOLTAGE_MV`, and is
  3300 mV where neither is given.
- Connecting forces DUT power off on the hardware before it sets the voltage, and fails
  if it cannot. Power is only applied by `ppk2_configure` with `dut_power: true`
  (`laws::lemma_power_on_was_requested`, `laws::lemma_power_only_on_request`).

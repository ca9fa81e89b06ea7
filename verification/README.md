# open-telemetry-exporter

A service that tails log files and samples the machine's metrics, and sends
both to OpenTelemetry (OTLP) endpoints named in a `config.yaml` next to the
executable.

- `src/` is the library, verified with Verus: the configuration model
  (`config`), the tailing of log files (`log_tail`, `text`), the readings of
  the system exporter (`system`), the OTLP settings (`otlp`), the setup steps
  and the control loop of the service (`run`), and the interface of an
  exporter (`exporter`). The laws of the tailer and of the control loop are
  the `law_*` proof functions of `log_tail` and `run`.
- `app/` is the program around it: reading the configuration with serde,
  file and system I/O, the OpenTelemetry providers and gauges, the async
  loop and the Windows service glue.
- `tests/` runs the library on concrete inputs.

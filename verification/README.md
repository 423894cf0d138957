# gunicorn_autoscaler

Runs Gunicorn and grows or shrinks its number of workers with the load: it listens to StatsD
metrics, keeps a sliding window of request counts and durations, and signals Gunicorn (`TTIN`,
`TTOU`) to add or remove workers. What it decides is verified with Verus, but for the arithmetic
on request rates, which is in floating point.

- `src/args.rs`: which arguments are handed on to Gunicorn, and with which it is started
- `src/config.rs`: the settings, from environment variables
- `src/statsd.rs`: what StatsD lines and datagrams say
- `src/window.rs`, `src/window_model.rs`: the sliding window, its model, and what holds of it
- `src/controller.rs`: when to add or remove a worker, one step at a time
- `src/system.rs`: processor quotas and process numbers
- `src/durations.rs`: histograms, kept by the `hdrhistogram` crate
- `src/text.rs`, `src/number.rs`: text and decimal notation
- `app/`: the program: sockets, processes, signals, the clock, and everything that is reckoned in
  floating point

## Settings

| Variable | Default | |
| --- | --- | --- |
| `GUNICORN_AUTOSCALER_MIN_WORKERS` | `2` | least number of workers |
| `GUNICORN_AUTOSCALER_MAX_WORKERS` | `2 * cores + 1` | greatest number of workers |
| `GUNICORN_AUTOSCALER_SLO_P95_MS` | `300` | 95th percentile of the durations to keep, in ms |
| `GUNICORN_AUTOSCALER_IDLE_SECONDS` | `60` | idle seconds before a worker is removed |
| `GUNICORN_AUTOSCALER_STATSD_ADDR` | `127.0.0.1:9125` | where metrics are received |

The others, with their defaults, are in `src/config.rs` and `app/load.rs`.

## Use

    gunicorn-autoscaler myapp:app --bind 0.0.0.0:8000 --worker-class uvicorn.workers.UvicornWorker

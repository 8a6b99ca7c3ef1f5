# hc_host

The verified core of a Modbus TCP/RTU host computer, written in Verus.

`src/` is the library, every function proved against its contract:

- `model`: tags, devices, samples, projects and their defaults; quality codes.
- `decoder`: registers to values for every data type and byte order.
- `modbus`: which read serves a tag, what a reply means, what a poll's reads come to,
  which write stores a value.
- `transport`: connection settings of a device (TCP address, serial settings, slave id).
- `fake`: a simulated device that reads back what was written.
- `runtime`: the device registry, which poll loops to start and stop, one poll round,
  and the back-off after failed polls.
- `throttle`: batching of tag updates for the front end (interval, size limit with
  dropped count, change filter).
- `handlers`: routing of runtime events to the front end.
- `pacing`: the per-device debounce of device states and the pacing of log lines.
- `storage`: project file names and paths, the trend query and its thinning
  to at most the requested number of points.
- `text`, `error`, `event`, `hook`, `source`, `clock`: helpers, error texts, the event
  and hook types, the source request types, and the clock.

`tests/` exercises the library. `app/` is the program around it: the Modbus
connections, the SQLite history, the TOML project files, the asynchronous poll
loops and event bus, and the channel to the front end (JSON lines on standard
output).

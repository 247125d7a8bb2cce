# obd

The overlaybd device lifecycle: create layers, launch a device over
TCMU/configfs, mount it, commit the result, and tear it all down again. What the
library decides is stated in contracts and proved by Verus.

```
  Device  --up()-->  Live  --mount()-->  Mounted
                      |                    |
                      +<--- unmount() -----+
                      |
                    down()
```

## The library decides, the host acts

Nothing under `src/` touches the host. An operation that does is a value with
two methods:

- `op` says what the host is to do next: read a file, write an attribute, sleep,
  mount.
- `resume` takes what came of it, and either goes on or finishes.

So a failing `mount(2)`, a busy mount or a daemon that never answers is an
argument of some `resume`, and what follows from it is in that function's
contract. An answer to another question than the one that was asked changes
nothing.

The contracts of single steps add up to statements about whole runs, which stand
beside them as `law_...` proof functions: a device counts as live only after
overlaybd reported success, a node that belongs to another device is never
resolved, a refused launch is taken down before it fails, a teardown does
every one of its steps and never goes back, a sweep removes what carries this
crate's prefixes and nothing else.

## Layout

| Path | Purpose |
| --- | --- |
| `src/device.rs` | The `Device`, `Live`, `Mounted` typestate and its laws |
| `src/teardown.rs` | Taking a device's configfs entries down, in order |
| `src/configfs.rs` | Attribute writes, waits, and block-device resolution |
| `src/cleanup.rs` | Convention sweep, unmounting, termination signals |
| `src/config.rs` | Device config JSON, local and streamed lowers |
| `src/tools.rs` | `overlaybd-create` / `overlaybd-commit`, binary discovery |
| `src/checks.rs` | What a host needs to drive devices |
| `src/cli.rs` | What the commands of `obdctl` do with their arguments |
| `src/report.rs` | What `obdctl` prints, as lines and as JSON |
| `src/host.rs`, `src/error.rs`, `src/path.rs`, `src/text.rs`, `src/json.rs` | What the others are built from |
| `app/` | `obdctl`: arguments, logging, and the host side of every operation |
| `tests/` | The library against simulated hosts |

`src/json.rs`, `src/path.rs` and `src/text.rs` hold the few functions that are
believed rather than proved: those of `serde_json` and of the standard library
that the others call.

## Platform

configfs, TCMU and `mount(2)` are Linux-only. The types exist everywhere, but
device operations answer `Error::UnsupportedPlatform` off Linux.

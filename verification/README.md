# dmgr

A device manager for Linux: it lists the USB, PCIe, sound, input, block,
GPU, network, TTY and power devices found under `/sys`, shows their
attributes, binds and unbinds drivers and writes editable attributes, and
serves all this on the session bus as `org.dmgr.DeviceManager`. A desktop
front end adds sound, Bluetooth, kernel modules, services, power and system
information.

## Layout

- `src/` — the library, verified with Verus. Every public function states
  what it returns in its contract, over the views of its types.
  - `scan`, `sysfs`, `device`: the scan of what was read of `/sys`.
  - `control`, `properties`, `error`: driver and attribute operations.
  - `daemon`, `udev`: the device store of the service and its signals.
  - `helper`: the command line of `dmgr-polkit-helper`.
  - `gui`: the state of the desktop window, its detail panel and the work
    of its background thread.
  - `desktop`: the desktop commands (sound backends, Bluetooth, kernel
    modules, services, power, platform, system, details, Windows helpers).
  - `text`, `num`, `sort`, `paths`: text, numbers and stable sorting.
- `tests/` — tests of the library.
- `app/` — the programs: the D-Bus service, the privileged helper, and the
  file and process I/O of the front ends.

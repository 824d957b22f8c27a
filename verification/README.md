# ninjutso

Linux configuration tools for Ninjutso gaming mice, talking to the device over
`hidraw`: a command line, a GTK window and a battery tray.

The library in `src/` decides and computes everything between the wire and the
screen, and is verified with Verus. `app/` is the program around it: hidraw and
sysfs, the terminal, D-Bus, the network and the widgets.

| module | what it holds |
|---|---|
| `protocol` | command table, encoders, packet builder |
| `transport` | the `Transport` trait and its history, ioctl requests, a scripted `Fake` |
| `device` | discovery, the command layer, status, setters, and what holds of them all |
| `icons` | ARGB32 battery icons, drawn in whole numbers |
| `tray` | what a StatusNotifierItem and its dbusmenu answer |
| `battery_tray` | what the tray shows, when it warns, its command line |
| `gui` | what a reading means for the widgets, and what the device thread does |
| `cli` | what each command does and prints |
| `firmware` | the online version check |
| `text` | numbers, lists and lines as text |

## How the contracts speak of a device

A `Device` talks over a `Transport`, whose history holds every report written,
every report fetched and every wait. Contracts describe an operation as a course:
the steps it takes over the transport, the device it leaves behind, and what it
gives back, each as a function of what came back from the hardware. So a setter's
contract fixes what is written, that it is read back afterwards, and that what it
reports is what was read.

`Fake` is a transport whose answers are known. `device::round_trip` shows that on
hardware which answers as it does, every setter gives back what was asked for.

DPIs are whole tenths: only a Sora V3 has tenths at all.

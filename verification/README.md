# rapid-analyzer

Reviews a test run: telemetry logs, CAN traffic, sensor databases, video and sound, side by side
on one master timeline.

The library under `src/` holds the data, the protocols and the rules, and is verified with Verus.
Each public function states what it returns or changes; relations between functions are public
proof functions beside them. `app/` is the program around it: windows, files, decoders, sound, and
whatever is computed with measured values in floating point, such as sums, fitted ranges,
interpolation and the distance from the vapour pressure. `tests/` runs the library.

| module | what it holds |
| --- | --- |
| `series`, `double`, `model`, `clock`, `timeline` | samples and their levels of detail, sources, instants, the playhead and the visible window |
| `can`, `can::iocan`, `can::collector`, `can::signals` | frames, hand-picked signals, the IO boards' protocol |
| `can::canopen` | object dictionary, SDO transfers, node and object histories |
| `import`, `xml`, `dialect`, `wire`, `mavlink_meta` | telemetry records, sensor databases, probing of recordings, start times, message definitions and their layout on the wire |
| `panes`, `plot_view`, `correction`, `media_view`, `playback`, `sidebar`, `shortcuts`, `workspace` | what is open, and what each request does to it |
| `can_builder`, `canopen_inspector`, `picker` | what the tool windows list and choose |
| `vapor`, `n2o`, `units`, `tank` | the nitrous oxide pane and the tank pane |
| `export` | figures, their layout, the pages they are drawn on, SVG and PNG files |
| `text`, `order`, `keyed`, `assoc`, `colors` | strings, sorting, maps, palettes |

Numbers are whole wherever something is decided: instants are microseconds, lengths on a page are
hundredths of a unit, temperatures of a scale are thousandths of a degree. Measured values are
carried as the bits of a double and compared, never computed with, inside the library.

# geotagger

A photo geotagging workbench: it matches the capture times of camera photos against GPX
tracks and writes the matched GPS positions into copies of the photos with ExifTool.

The library under `src/` holds the project's logic with machine-checked contracts:

- `gpx` reads GPX documents event by event, checks and orders track points segment by
  segment and lays out imported tracks (identity, name, span, warnings);
- `capture`, `timeline` read capture times with their offsets or the project time zone;
- `matching` places a photo's corrected capture time inside exactly one track segment;
- `write_plan`, `write_job` decide what a write plan copies and how each item ends;
- `exiftool`, `payload`, `webview2` describe the bundled tools and their output;
- `project`, `state`, `tasks`, `workflow`, `report`, `photo`, `paths`, `files` cover the
  project file, the open-project state, background tasks and the file-level rules.

Path rules take the platform as a `windows` flag: on Windows a path may start with a drive
(`C:`) or with the two separators of a UNC or verbatim path, and both `\` and `/` separate
names; results are written with `\`. The program passes `cfg!(windows)`.

`app/` is the command-line program around it: file and process I/O, the JSON project file,
and the floating-point coordinate arithmetic (datum conversion, distances, interpolation and
confidence scores). `tests/` exercises the library.

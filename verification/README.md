# snart_laser

The verified core of a laser-cutter and vinyl-cutter design and control
application, with a small command-line front end.

## Layout

* `src/` – the library, each function with its contract:
  * `text` – trimming, substring search, number parsing and formatting,
    sorting and de-duplicating lines.
  * `device/` – machine protocols and driver decisions: the Vevor Smart 1 USB
    message framing and response parsing, target selection and job plans;
    the Ruida packet scrambling, checksums and job transfer; GRBL job
    streaming and status parsing; job chunking and progress; the listing of
    connection devices.
  * `gcode/` – HPGL and G-code program assembly.
  * `formats/` – DXF group-code reading and entity collection, SVG stroke
    colours.
  * `canvas/`, `job/` – the design scene (items found by id, selection,
    order) and the cut-layer list.
  * `common/`, `ui_state` – configuration, key bindings, recent files,
    device profiles, menus and the device status panel.
* `app/` – the program around the library: file and device I/O, device
  worker threads, the configuration and project files, SVG import through
  `usvg`, and all floating-point geometry (path flattening, unit conversion,
  coordinates in G-code).
* `tests/` – tests of the library on concrete values.

# claprs

A command line APRS tracker. The library (`src/`) holds the tracker's
logic on integers and text, verified with Verus: decoding APRS-IS packet
lines (uncompressed, compressed and Mic-E positions, objects, messages,
status, weather), the aligned display line and its header, configuration
resolution (flag > environment > file), the read-only APRS-IS login, the
command-line filters, the aprs.fi reply handling, and the live table: one
row per station (latest wins), the trail of each station, which rows a
frame lists newest first, and what every key does.

`app/` is the program around it: argument parsing, the config file, the
network, the terminal and the loop that reads packets and keys (including
holding packets back while paused), the clock, and everything in floating
point (degrees, whether a station moved, distances, the sort by distance,
bearings).

Layout of `src/`:

- `text`: characters, trimming, display text of raw bytes, padding, numbers.
- `position`: coordinate fields, base-91, compressed positions.
- `mice`: Mic-E destination, information field and comment.
- `weather`: weather fields and their summary.
- `packet`: the packet parser and the display line.
- `config`, `cli`, `aprsis`, `aprsfi`: configuration, filters, login and
  the aprs.fi lookup.
- `table`: the live table's stations, rows, trails and keys.

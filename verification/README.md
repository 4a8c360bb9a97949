# skagit_flats

The logic of an e-ink trip-planning dashboard for the Skagit Valley, written
in Verus: a Raspberry Pi with a Waveshare 7.5" panel shows go/no-go
recommendations for configured destinations, built from weather, river,
ferry, trail and road data.

## Layout

- `src/` — the verified library.
  - `render`, `draw`, `font`, `glyphs`, `icons`, `grid`, `layout`: the 1-bit
    pixel buffer and everything that draws into it. Contracts state which
    pixels each drawing call may touch, and what it paints (boxes, borders,
    discs, glyphs and text exactly; lines without gaps; the solid parts of
    the weather icons; panel titles and body lines; on the full display every
    zone's texts as far as they fit, the weather icon, and the road status).
  - `evaluation`, `domain`: the recommendation rules (NO GO, UNKNOWN,
    CAUTION, GO) over freshness, criterion checks, road status and aging
    data, with the priority laws proved.
  - `presentation`, `wrap`, `text`, `strings`, `datetime`: panel text, word
    wrapping, number rendering and parsing, and the timestamp formats of the
    data feeds.
  - `sources`: what each feed's response becomes (river gauge, ferry
    schedule, road closures, trail alerts), retry backoff, source settings.
  - `web`, `page`, `page_shell`: HTML escaping, URL encoding, the USGS site
    list, the destination list edits, and the configuration page: its fixed
    shell and the parts set into it.
  - `panel`: the command sequences that drive the panel controller.
  - `frame`, `app`: turning a fetched image into a frame, and the decisions
    of the display loop.
- `tests/` — tests of the library on concrete values.
- `app/` — the program around the library: HTTP, SPI and GPIO, the web
  server, JSON and TOML decoding, and the floating-point measurements and
  their comparisons.

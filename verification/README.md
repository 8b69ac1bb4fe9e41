# smol_epub

The chapter cache of an EPUB reader, written and verified in Verus.

| Module | Purpose |
|--------|---------|
| `cache::names` | FNV-1a, names of cache directories and chapter files |
| `cache::meta` | the `META.BIN` file: encode, parse, validate |
| `cache::progress` | the chapter pipeline as a mathematical state machine |
| `cache::stream` | the pipeline itself: `EntryStream` |
| `cache::stream_laws` | what holds of every run of the pipeline |
| `cache::text_laws` | what text an entry gives, in whatever pieces it is read |
| `cache::end_laws` | every run of the pipeline comes to an end |
| `cache::inflate` | the DEFLATE decompressor, from `miniz_oxide` |
| `zip` | ZIP entries and local file headers |

`EntryStream` does no I/O. It says what has to be done next: read the store, hand
data to the text stripper, write text. Its owner does that and reports what came of
it. `app/` holds such an owner, with a store, a text stripper and a sink that are
passed in.

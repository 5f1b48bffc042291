# deckmaster

A presentation engine around the `.deckpkg` format: a zip holding
`deck.json` (the deck) and `assets/{id}.{ext}` (the images it uses).

The library (`src/`) is verified with Verus. It holds the deck model and
the edits made to it, the validation checklist, reading and writing the
package's files, PPTX import (slide list, relationships, text boxes and
pictures) and export (resolving every picture before anything is written,
patching the template, generating slides), the Beamer/TeX rendering, and
the embedded-JSON data URLs. `src/laws.rs` states properties of the whole:
what validation says of sound and broken decks, that media types and
extensions map back and forth, that a saved package opens with the same
asset bytes and that readers ignore extra files, that the parts a PPTX
export writes are the parts an import looks for (and give back raster
media types), that text written into a slide reads back unchanged, that
every imported picture resolves to an asset with bytes (one asset per
image, and bytes for those assets alone), and that `pack`
refuses exactly what `validate` fails.

`app/` is the command-line tool: argument parsing, files and zips on disk,
`deck.json` through serde, and the floating-point conversions between
points, EMU and TeX `bp` text. PPTX export reads its template from
`templates/blank.pptx`.

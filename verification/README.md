# hakugi

A viewer for Genshin Impact item data. A window lists the game's
characters, weapons, artifact sets and card-game cards; the ids typed into
its query box are fetched from the Hakush.in item API, reduced to their key
details, and saved as JSON files under `results/`. When an item is saved
again, the new form is compared with the saved one and the differences are
written to `changes/{item type}/{item name} {date}.json`, numbered ` (n)`
after the date when a file of that day is already there.

## Layout

- `src/` is the library, verified with Verus: the description markup
  (colour tags, glossary links, italic notes, sprites) and its cleaning, the
  merging of refinement texts, material totals, the stable ordering of
  passives, glossary lookups, card descriptions, skill placeholders, the
  search over the item lists, the names and messages of saved files, and the
  rendering of text differences. Each public function states its result in
  its contract; `chars`, `markup`, `color_segments` and `key_map` hold the
  shared text and map machinery.
- `tests/` runs the library on concrete values, and holds the cleaning
  passes against the same passes written with regular expressions.
- `app/` is the program around the library: the window (egui), the HTTP
  requests, the files, the clock, the JSON forms of the types, and the
  formatting of skill scalings, which are floating-point numbers.

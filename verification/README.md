# osu-pipeline

A verified core for an osu! beatmap dataset pipeline: extracting beatmap
archives, building parquet tables from beatmap folders, enriching them, and
reconstructing beatmap folders from the tables.

- `src/` is the library, verified with Verus: text and path rules, the
  archive extraction plan, the column encodings of the beatmap tables and
  their round trips, storyboard script writing, folder reconstruction plans,
  row batching, the enrichment inputs, and the viewers' combo numbering.
- `tests/` runs the library on concrete inputs.
- `app/` is the command-line program around it (`extract`, `build`,
  `enrich`, `reconstruct`): file, archive, parquet and network I/O, and the
  conversions to and from the `rosu-map`, `rosu-storyboard`, `rosu-pp` and
  `rosu-v2` types.

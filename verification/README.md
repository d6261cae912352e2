# rustdu

The core of a terminal disk usage browser, verified with Verus.

`src/` holds the library, each function with a contract that Verus proves:

- `format` — sizes for people (`512B`, `1.5K`, `2.0G`), computed with integers
  exactly as `{:.1}` prints the quotient of two doubles.
- `percent` — an entry's share of the total, `{:>5.1}` of
  `(size as f64 / total as f64) * 100.0`, reproduced bit for bit with integers.
- `text` — whitespace words, code point order of names, substring search.
- `sort` — stable ordering of entries by size (largest first) or by name.
- `scanner` — directory entries, the totals of a scan, the cache of directory sizes.
- `app` — the browser's state and the keys that move it; the answer to a key says
  which file system work is due. Scans are numbered, so a stale result is ignored.
- `ui` — colours by size, the title, status and help texts, and the layout of the
  screen.
- `laws` — properties across calls: sorting keeps the entries and is determined,
  the cache answers what was recorded, shares never pass 100%, keys keep the
  listing consistent, every line shows its entry's whole name, Enter and `d` act
  on the name on the highlighted line, in help every key closes it,
  a deletion target exists exactly while confirmation is pending, and more.

`app/` is the program around it: the command line, reading and deleting on disk,
the background scan, key conversion and drawing with ratatui.

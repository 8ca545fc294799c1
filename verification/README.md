# arena_filter

Filters on played matches, verified with Verus.

A filter is an expression over the attributes recorded for a match and for its bots:

    bot(1)[50].score >= 30 AND (match.map_type == "small" OR NOT match.stones < 10)

Keywords are matched in any case; `AND` binds tighter than `OR`; numbers follow nom's
floating-point grammar and compare as IEEE-754 binary64 values; strings compare for
equality only. A filter accepts a match when its expression evaluates to true; an
expression that reads a missing attribute, or compares a number with a string, accepts
nothing.

Layout:

- `src/` — the verified library: the grammar (`parser`, `lexer`), expressions and their
  written form (`ast`), floating-point values as bit patterns (`number`), matches
  (`domain`), evaluation and filters (`filter`), and the proved laws (`laws`, `canonical`,
  and `law_small_integers_compare_exactly` in `number`).
- `tests/` — tests of the library.
- `app/` — the text interface used by the rest of the service: `FromStr` with `anyhow`
  errors, `Display`, and conversions from native floating-point numbers.

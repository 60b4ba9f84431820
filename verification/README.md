# factini

The logic of a small factory game, verified with Verus: the floor of 17 by 17 cells, belts
that move parts between suppliers, machines and demanders, the editing operations that lay
and connect belts, the text forms of a floor (framed views, the map dump, and the map parser),
the flood fill path finding, and the automatic builder that plays the game by itself.

Layout:

- `src/` the verified library, one module per subject: `floor`, `cell`, `belt`, `belt_meta`,
  `connect`, `edit`, `apply`, `track` (floor and editing); `serialize`, `dump` (text forms);
  `deserialize`, `parse_floor`, `layout` (reading maps); `auto`, `auto_build` (flood fill and
  the automatic builder); and the small data modules.
- `tests/` tests of the library on concrete floors and maps.
- `app/` printing to the console and the floating point timing of the user interface.

# stencil

Engraving stencils for music notation.

- `src/` is the verified library: the drawing tree (`Stencil`, `CombineStencil`)
  and how drawings are combined (`and`, `combine`, `default`), the escaping of
  SVG text, the SVG markup around each kind of drawing, the decimal digits of a
  time-signature number, and the rastal (staff size) table.
- `app/` holds the floating-point geometry that fills the tree's leaves
  (outlines, texts and transforms from `kurbo`): paths, circles, lines, rounded
  boxes, bounds, advances and the writing of numbers into SVG.
- `tests/` exercises the library on concrete values.

Not included, because their sources are not part of this crate: the font
outline table (`corefont`) that the glyph constructors (staff lines, stems,
barlines, time-signature symbols, clefs, rests, noteheads, flags, augmentation
dot) draw from, the stencil map (`stencil_map`), the `entity` and `rhythm`
crates and the staff type. So the glyph constructors and the entity-system
passes (printing staffs, updating world bounding boxes) are absent; the
time-signature number and fraction take the digit glyph as an argument.

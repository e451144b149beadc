# dessin

Composing logic of `dessin`, a library that builds drawings and exports them
(SVG and others), written in Verus: every function of the library under `src/`
carries a contract that Verus proves.

## Layout

- `src/` — the verified library.
  - `curve` — curves of points, Bézier segments and nested curves; builders,
    start point, reversal (with its laws: reversing twice gives the curve back,
    a reversed curve starts where the curve ended).
  - `path` — curves as exporters receive them: drawing commands
    (`MoveTo`, `LineTo`, `CubicTo`, `Close`) and the flattening of nested curves.
  - `export` — the walk of a drawing: the calls an exporter receives, the
    driver that makes them until the first error, and the law that style
    blocks are scopes.
  - `svg` — the markup of the SVG exporter: styles, groups, ellipses, images,
    paths, texts, embedded fonts and the document.
  - `legacy_svg`, `color` — the attribute SVG writer; colors and the shortest
    decimal text of an opacity, computed with integers.
  - `legacy_pdf` — the points of a path as the line PDF writer outlines it.
  - `raster` — the stack of styles of the raster exporter and the style in force.
  - `textual` — decimal and hexadecimal digits, markup escaping.
  - `derive` — what `#[derive(Shape)]` generates for each field.
  - `font`, `text`, `shapes`, `position` — font lookup, text alignment, shape
    vocabulary and placement builders.
- `tests/` — tests of the library.
- `app/` — unverified code around it: the token front ends of the `dessin!`
  macro and of `#[derive(Shape)]`, floating-point geometry, and the SVG
  exporter that places shapes, prints coordinates and reads font files.

Coordinates, angles and sizes are floating-point numbers, which Verus does not
reason about: the library handles them as opaque type parameters or receives
them already written as text.

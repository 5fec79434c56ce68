# usvg_animation

The parsing rules of SVG animation — SMIL animation elements and CSS
`@keyframes` animations — as a library verified with Verus.

`src/` holds the verified library. Every public function states in its
`ensures` what it returns, over spec functions on sequences of characters and
on the views of the library's types; the laws that relate several functions
are public proof functions (`lemma_*`).

- Text and numbers: `text`, `digits`, `number` (when a decimal literal reads
  as a finite `f32`/`f64`, and in which range), `scanner`.
- CSS: `shorthand` (the `animation` shorthand), `declarations`, `keyframes`
  (extracting `@keyframes` rules from a style sheet), `metadata` (the
  `animation-*` longhands), `css_values`, `css_transform`, `css_plan` (which property
  animations an element gets).
- SMIL: `clock`, `syncbase` (resolving `begin`/`end` lists, syncbase
  references included), `durations`, `easing` (`keyTimes`/`keySplines`),
  `motion` (`<animateMotion>`), `smil`, `smil_values`, `forms` (the
  `values`/`from`/`to`/`by` forms as keyframes), `paint`, `presentation`.
- Targets: `elements`, `routing`, `carriers`, `order` (a stable sort by key).

Numbers that end up as `f32` are kept as the texts of literals that are known
to read as finite values in the required range; `app/` turns them into
floating-point values, builds motion paths, subtracts keyframe paths for
accumulation, orders CSS keyframes by offset and logs the warnings the library
reports.

The outside crate `svgtypes` is called from the library for paints and colors,
behind the trusted items in `paint`, and for the units of lengths in CSS
transform functions, behind the trusted item in `css_transform`.

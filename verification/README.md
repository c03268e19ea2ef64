# color_sort

Reading, ordering and filtering colors written as `#rgb`, `#rgba`, `#rrggbb`,
`#rrggbbaa`, `rgb(r, g, b)`, `rgba(r, g, b, a)` and `hsl(h, s%, l%)`.

- `src/` is the verified library (Verus): reading the notations (`parse`, `hex`,
  `text`), writing hex and `rgb(..)` notation (`format`), the sort keys and the
  stable sort of color strings (`sort`), the filter decision (`filter`), and the
  laws tying them together (`roundtrip`, and the proof functions beside each part).
- `app/` is ordinary Rust on top of it: the color model with fractional channels
  (alpha, hue, saturation, lightness), which needs floating point.

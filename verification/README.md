# SVG to OMAP point symbol

Converts SVG vector artwork into one point symbol in an otherwise empty
OpenOrienteering Mapper `.omap` file.

```text
svg2omap [OPTIONS] <INPUT.svg> [OUTPUT.omap]

--name <NAME>        Point-symbol name (default: input file name)
--code <A[.B[.C]]>   Point-symbol code (default: 900)
--map-scale <N>      Map scale denominator (default: 10000)
--dpi <DPI>          SVG CSS pixel density (default: 96)
--width-mm <MM>      Override the physical SVG viewport width
```

The output path is optional; without it, `input.svg` becomes `input.omap`.
Adjacent paint layers with the same RGB color share one OMAP color. If another
color occurs between two equal colors, they remain separate so that the color
table preserves the drawing order. Gradients become their average color, partial
transparency becomes fully opaque, and clip paths, masks, filters, and blend
modes are ignored. Pattern paints and raster images are skipped. A warning is
printed for each of these.

## Layout

- `src/` is the conversion, verified with Verus: from resolved artwork
  (`drawing`) to contours (`outline`, `inside`), polygons with holes (`rings`),
  paint layers (`collect`, `layers`) and the map (`convert`). Numbers are held as
  bit patterns (`binary64`), which the library compares but never computes with.
  The claims about the `omap` crate that the proofs rest on stand in `document`;
  those about paths, quoting and codes stand in `command_line`.
- `app/` is the program around it: arguments, files, SVG parsing, and everything
  that is floating-point arithmetic.
- `tests/` runs the library with the real `omap` crate.

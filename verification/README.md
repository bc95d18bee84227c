# zpl_forge

A ZPL II label engine. The verified library (`src/`) parses ZPL into
commands, builds self-contained drawing instructions from them, resolves
template variables and `^IFC` conditions per page, wraps and places `^FB`
text blocks, encodes MaxiCode, MSI and POSTNET natively, drives the barcode
writer for the other symbologies, and lays out every bar and cell of a
symbol. Standalone barcodes render to SVG or PNG.

- `src/ast`: the ZPL parser and the command model.
- `src/engine`: the instruction builder, template variables, page plans and
  text-block layout.
- `src/forge`: symbologies, symbol geometry, custom colors and the WinAnsi
  text encoding of PDF output.
- `src/standalone_barcode.rs`, `src/tools.rs`: standalone barcodes and the
  ZPL graphic-field decompression.
- `src/renderer.rs`: the request checks of the embeddable renderer (input,
  canvas, font, page and output limits, the single-format rule and the error
  codes).
- `app/`: physical units, fonts and the PNG and PDF drawing backends, which
  rest on floating-point metrics and outside drawing crates, and the
  renderer that JavaScript bindings expose.

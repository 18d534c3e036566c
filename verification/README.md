# ocr

Reads item names off game screenshots. The verified library (`src/`) holds
the integer and text logic; `app/` holds file I/O, the floating-point
scoring, the colour theme and the Tesseract engine.

- `grid`: pixel grids and masks, with their shape as a type invariant.
- `histogram`: row and column counts of a mask; two-tone images.
- `crop`: cropping cut down to the image.
- `layout`: the screen's scaling basis; reward part and inventory rectangles and splits.
- `ranking`: selection of the five best-scoring text scales.
- `draw`: debug drawing of histograms and rank lines.
- `text`: normalisation of recognised text.

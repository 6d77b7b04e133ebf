# blueprint2mod

Converts architectural blueprint images (JPG/PNG) into 3D models (OBJ+MTL or binary STL)
for import into SketchUp: the user crops and scales the image, the detection pipeline
masks text, traces and classifies line segments, merges collinear ones and builds a floor
plan, low-confidence elements are clarified, and the plan is extruded and exported.

## Layout

- `src/` — the library, verified with Verus:
  - `state` — the application state machine and when sessions may be saved;
  - `workflow` — pipeline stages and the decision taken on each worker report, export
    formats, the scale-point workflow;
  - `cli` — command-line parsing;
  - `blueprint` — image metadata and loading, crop regions, interior walls;
  - `scale` — validation of the scale reference points;
  - `text` — character-sequence helpers (trimming, case folding, word splitting);
  - `ocr` — word/box alignment, binarisation, room-label and annotation rules;
  - `raster` — rasters, text masking, gradient percentiles, histograms, row bands;
  - `tracing` — dilation, run extraction and double-wall detection on edge maps;
  - `classify` — classifier label order, output buckets, patch rectangles;
  - `merge` — union-find grouping of collinear elements;
  - `clarification` — applying and skipping user corrections;
  - `mesh` — materials, extrusion kinds, box topology (outward, counter-clockwise
    triangles), OBJ face numbering and names.
- `tests/` — tests of the library.
- `app/` — the GUI program (egui/eframe), file and network I/O, OCR and ML engines, and
  the floating-point geometry (scale factors, denoising, segment angles, vertex
  coordinates).

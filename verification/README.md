# print_catalog

The layout, raster and printer-setup logic of a photo-grid printing tool,
written in Verus and proved against its contracts.

- `src/` — the verified library:
  - `arith.rs`: exact rounding ("half away from zero") and saturation.
  - `alignment.rs`: the named alignments and the offset they give.
  - `placement.rs`: cover/contain placement of a photo in a cell.
  - `layout.rs`: micrometres to pixels and device units, cell positions.
  - `raster.rs`: decoded photos held in `image::DynamicImage` (in their own
    colour type) and RGBA rasters held in `image::RgbaImage`, with the
    trusted calls into the `image` crate.
  - `bgr.rs`: bottom-up, 4-byte-aligned BGR rows for a 24-bit bitmap.
  - `engine.rs`: data-URI decoding, rotation, fitting and placing photos in
    cells, outlines and whole-page composition.
  - `printer.rs`: paper settings and the colour-management fallback, the
    printer-name block, printer-name buffers, per-cell draw plans and the
    decoded-photo cache with the per-cell print step.
  - `laws.rs`: properties that span several functions.
- `tests/` — tests run against the compiled library.
- `app/` — the desktop shell: Tauri commands, serde copies of the job types
  (lengths in millimetres) and the Win32 printing calls.

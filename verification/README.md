# lenscrust

An image editor (egui) whose editing operations are a verified library.

- `src/` — the library, verified with Verus:
  - `raster`: the image type (`Image`, a grid of 8-bit RGBA pixels with its
    storage format, marking each pixel that no operation has written since
    the image was made) and its model `ImageView`;
  - `geometry`: mirroring, quarter-turn rotations, zooming in by
    interpolation, zooming out by averaging windows, and laws about them;
  - `point`: luminance and tone quantization;
  - `convolution`: 3x3 kernels with exact fractional weights, and convolution;
  - `histogram`: gray-level histograms;
  - `operations`: one edit with exact parameters, as the editor applies it;
  - `codec`: the file format an extension names, and decoding a file's bytes
    with the `image` crate into an `Image`;
  - `saving`: which file extensions are written as JPEG.
- `app/` — the program: windows, file dialogs, reading files, encoding
  through the `image` crate (a pixel that the library still marks as kept is
  written with the file's own samples, which a 16-bit or floating-point file
  holds finer than 8 bits), and the floating-point arithmetic (BT.601 gray values,
  quantization bins, zoom windows from zoom factors) that the library takes
  from its callers as functions or values.
- `tests/` — tests of the library.

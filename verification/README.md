# quantize_palette

Snaps every pixel of an image onto a fixed color palette, with optional
dithering, for palette-constrained art pipelines.

- `src/` is the verified library:
  - `text`: the character model of palette files (Unicode whitespace,
    lines, trimming, words, decimal and hex numbers);
  - `palette`: the GIMP `.gpl`, JASC `.pal`, `.hex` and Paint.NET `.txt`
    readers, extension dispatch, and the `Palette` with first-occurrence
    color lookup;
  - `quantize`: alpha handling, output-pixel assembly, error-diffusion
    neighbors and weights, the Bayer threshold matrix;
  - `encode`: which output paths are acceptable, and the content of an
    8-bit indexed PNG;
  - `files`: which inputs are images, and where each output goes;
  - `paths`: file extensions;
  - `laws`: properties that span several functions.
- `app/` is the command-line tool: argument parsing, file and image I/O,
  and the floating-point parts (sRGB/Oklab conversion, nearest-color
  search, dithering arithmetic), which hand palette indices to the library.

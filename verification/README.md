# cap-img

Image-processing primitives for the tool apps: image information and EXIF,
thumbnails, resizing, rotating, flipping, cropping, filters, export, data URLs,
magic-byte sniffing and JPEG frame encoding.

- `src/` is the library, written in Verus: every function states its
  behaviour in `requires`/`ensures` and is proved against it. It covers the
  parsers and decisions: format names, MIME types, magic bytes, data URLs,
  base64 padding, the EXIF reader (JPEG segment chain and TIFF IFD0), crop
  bounds, rotations, filter names, the invert filter, export settings,
  checking and encoding RGBA frames. Calls into `base64`, `image` and `std`
  that Verus cannot see are behind small trusted functions whose contracts
  are documented where they stand.
- `app/` holds what cannot be verified: file I/O, decoding and transforming
  `image::DynamicImage` values (whose samples may be floating point), the
  floating-point filters, and `serde` forms of the records.
- `tests/` runs the library on concrete inputs.

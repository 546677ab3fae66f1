# raytracing_one_weekend_rs

A small ray tracer that writes its image as a PNM file, built around a
verified PNM library.

- `src/` is the library, verified with Verus: PNM image buffers of the six
  kinds (P1 to P6), pixel access, the header and data encodings, reading
  images back from bytes, and the laws that tie these together (a pixel reads
  back as it was set, a refused write changes nothing, an image of the kinds
  that allow it reads back as it was written).
  `src/bindings.rs` holds the trusted contracts of the outside functions the
  library calls (`bytemuck`, `byteorder`, and a few of `std`); the wrappers
  of `bitvec`, behind the bitmap storage `BitData`, are in `src/pnm/bits.rs`.
- `app/` is the program: the floating-point geometry (vectors, rays,
  spheres, the camera), file I/O, and `main`, which renders two spheres and
  saves a binary PPM file.
- `tests/` exercises the library on concrete images.

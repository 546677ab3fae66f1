//! A ray tracer's image library: PNM (PBM, PGM, PPM) image buffers with
//! verified pixel access, encoding and decoding.

pub mod pnm;
mod bindings;
mod text;

//! A baseline JPEG/JFIF codec: an 8-bit RGB image to the bytes of a JPEG file
//! with 4:2:2 sampling, and such bytes back to an image.
//!
//! Every stage is verified: its contract says what it returns, over plain
//! mathematical models of its data, and Verus proves that its code keeps the
//! contract and neither overflows nor panics.
//!
//! Encoding goes through [`color`] (RGB to planes of luminance and
//! chrominance), [`blocks`] (planes to 8×8 blocks, grouped in MCUs), [`dct`]
//! (the cosine transform, in fixed-point arithmetic), [`quant`] (division by a
//! quantization table), [`zigzag`] (the zigzag order), [`entropy`] (Huffman
//! coding of DC differences and AC runs) and [`writer`] (the segments of the
//! file). Decoding goes back through [`parser`], [`entropy_decode`], [`planes`]
//! and [`color`]. [`codec`] puts the stages together.
//!
//! The bits of the scan are kept in a bit vector of the `bitvec` crate, and
//! segments are written and read through a byte buffer of the `bytebuffer`
//! crate. What the library takes on trust from these two crates stands in
//! [`bits`] and [`bytes`]. One more thing is taken on trust: that `Rc::clone`
//! hands out the value it was given, in [`parser`].
//!
//! The modules whose names end in `_laws`, and [`prefix`], hold theorems about
//! the stages: that the decoder undoes what the encoder does.

pub mod bits;
pub mod blocks;
pub mod bytes;
pub mod codec;
pub mod codec_laws;
pub mod coding_laws;
pub mod color;
pub mod dct;
pub mod dct_laws;
pub mod entropy;
pub mod entropy_decode;
pub mod error;
pub mod file_laws;
pub mod huffman;
pub mod markers;
pub mod parser;
pub mod planes;
pub mod prefix;
pub mod quant;
pub mod rounding;
pub mod segments;
pub mod stuffing;
pub mod table_text;
pub mod tables;
pub mod vli;
pub mod writer;
pub mod zigzag;

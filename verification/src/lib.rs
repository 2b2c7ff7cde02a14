//! Reconciliation of the parts, frames and sound of an Android boot
//! animation with a video file, in both directions.
//!
//! A boot animation is an archive with a descriptor, `desc.txt`, and one
//! directory of numbered frames for each part, some with an `audio.wav`.
//! This library holds what has to be decided on the way from such an archive
//! to a video and back; it reads and writes no file and starts no program.
//! Its functions take names, texts and numbers and hand back plans.
//!
//! - [`descriptor`] reads and writes the descriptor, [`round_trip`] shows that
//!   the two agree, and [`color`] checks background colours.
//! - [`frames`] finds the order of the frames of a part from their file names
//!   and numbers the frames of all parts in one run; [`decode`] plans the way
//!   from the parts to one video.
//! - [`parts`] cuts a run of frames into parts of bounded size, [`audio`]
//!   gives each part its block of sound, [`encode`] resolves the settings of
//!   a new animation, and [`archive`] lays out its archive.
//! - [`command`] writes the arguments for the encoder and the probe, and
//!   [`probe`] reads the answers of the probe.
//! - [`text`], [`split`] and [`order`] hold what the others are built on:
//!   characters and numbers, tokens and lines, and stable ordering.

pub mod archive;
pub mod audio;
pub mod color;
pub mod command;
pub mod decode;
pub mod descriptor;
pub mod encode;
pub mod error;
pub mod frames;
pub mod order;
pub mod parts;
pub mod probe;
pub mod round_trip;
pub mod split;
pub mod text;

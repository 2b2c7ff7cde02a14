//! Audio: which part gets which block of the sound track.
//!
//! The sound of a video is cut into blocks as long as a full part, and block
//! `i` belongs to part `i`. A block that could not be cut is missing, and its
//! part stays silent: that ends nothing.

use vstd::prelude::*;
use vstd::string::*;
use crate::descriptor::part_name;
use crate::error::Error;
use crate::parts::{part_capacity, part_dir_name};
use crate::text::{decimal_digits, push_decimal};

verus! {

/// The name of the sound file inside a part: `audio.wav`.
pub open spec fn audio_track() -> Seq<char> {
    seq!['a', 'u', 'd', 'i', 'o', '.', 'w', 'a', 'v']
}

/// The name of the file of the sound block with the given index:
/// `audio0.wav`, `audio1.wav` and so on.
pub open spec fn audio_block(index: nat) -> Seq<char> {
    seq!['a', 'u', 'd', 'i', 'o'] + decimal_digits(index) + seq!['.', 'w', 'a', 'v']
}

/// The name of the sound file inside a part.
pub fn audio_track_name() -> (name: String)
    ensures
        name@ == audio_track(),
{
    let mut name = String::new();
    name.push('a');
    name.push('u');
    name.push('d');
    name.push('i');
    name.push('o');
    name.push('.');
    name.push('w');
    name.push('a');
    name.push('v');
    name
}

/// The name of the file of the sound block with the given index.
pub fn audio_block_name(index: u32) -> (name: String)
    ensures
        name@ == audio_block(index as nat),
{
    let mut name = String::new();
    name.push('a');
    name.push('u');
    name.push('d');
    name.push('i');
    name.push('o');
    push_decimal(&mut name, index as u64);
    name.push('.');
    name.push('w');
    name.push('a');
    name.push('v');
    name
}

/// Tells whether a listing holds a name.
pub fn is_listed(names: &Vec<String>, name: &String) -> (r: bool)
    ensures
        r == names.deep_view().contains(name@),
{
    let ghost all = names.deep_view();
    let mut k: usize = 0;
    while k < names.len()
        invariant
            k <= names.len(),
            all == names.deep_view(),
            forall|i: int| 0 <= i < k ==> #[trigger] all[i] != name@,
        decreases names.len() - k,
    {
        if names[k] == *name {
            assert(all[k as int] == name@);
            return true;
        }
        k += 1;
    }
    false
}

/// A part and the block of sound that belongs to it.
#[derive(Clone, Debug, PartialEq, Eq)]
pub struct PartAudio {
    /// The index of the part, and of the block.
    pub part_index: u32,
    /// The name of the file of the block.
    pub source: String,
    /// The name of the directory of the part.
    pub part_dir: String,
    /// Whether the block was cut: then it is copied into the directory of
    /// the part as `audio.wav`. Otherwise the part stays silent.
    pub found: bool,
}

/// `audio` pairs each part from 0 to `num_parts`, in this order, with the
/// block of its index, and says of each block whether the listing `blocks`
/// holds it.
pub open spec fn is_audio_alignment(
    blocks: Seq<Seq<char>>,
    num_parts: u32,
    audio: Seq<PartAudio>,
) -> bool {
    &&& audio.len() == num_parts + 1
    &&& forall|i: int|
        0 <= i < audio.len() ==> {
            let a = #[trigger] audio[i];
            &&& a.part_index == i
            &&& a.source@ == audio_block(i as nat)
            &&& a.part_dir@ == part_name(i as nat)
            &&& a.found == blocks.contains(audio_block(i as nat))
        }
}

/// Gives each part its sound: every part from 0 to `num_parts` is paired
/// with the block of the same index, and gets it if and only if
/// `audio_files`, the listing of the blocks that were cut, holds that block.
/// A part whose block is missing stays silent, and the others are not touched
/// by that: nothing here fails.
pub fn add_audio_to_parts(audio_files: &Vec<String>, num_parts: u32) -> (audio: Vec<PartAudio>)
    ensures
        is_audio_alignment(audio_files.deep_view(), num_parts, audio@),
{
    let ghost blocks = audio_files.deep_view();
    let mut audio: Vec<PartAudio> = Vec::new();
    let mut i: u32 = 0;
    loop
        invariant_except_break
            i <= num_parts,
            audio.len() == i,
        invariant
            blocks == audio_files.deep_view(),
            forall|j: int|
                0 <= j < audio.len() ==> {
                    let a = #[trigger] audio[j];
                    &&& a.part_index == j
                    &&& a.source@ == audio_block(j as nat)
                    &&& a.part_dir@ == part_name(j as nat)
                    &&& a.found == blocks.contains(audio_block(j as nat))
                },
        ensures
            audio.len() == num_parts + 1,
        decreases num_parts - i,
    {
        let source = audio_block_name(i);
        let found = is_listed(audio_files, &source);
        audio.push(PartAudio { part_index: i, source, part_dir: part_dir_name(i), found });
        if i == num_parts {
            break ;
        }
        i += 1;
    }
    audio
}

/// Sound can be cut into blocks only at a frame rate above zero: with a
/// frame rate of 0 it fails with [`Error::InvalidDimension`].
pub fn check_frame_rate(fps: u32) -> (r: Result<u32, Error>)
    ensures
        fps == 0 <==> r is Err,
        r matches Err(e) ==> e == Error::InvalidDimension,
        r matches Ok(n) ==> n == fps,
{
    if fps == 0 {
        Err(Error::InvalidDimension)
    } else {
        Ok(fps)
    }
}

/// The length of a block of sound, in frames: that of a full part.
pub fn audio_block_frames(max_frames: u32) -> (frames: u32)
    ensures
        frames == part_capacity(max_frames),
{
    if max_frames == 0 {
        1
    } else {
        max_frames
    }
}

/// Where the block of sound with the given index starts, in frames from the
/// start of the video. Divided by the frame rate it is the time in seconds.
pub fn audio_block_start(index: u32, max_frames: u32) -> (frames: u64)
    ensures
        frames == index * part_capacity(max_frames),
{
    let length = audio_block_frames(max_frames);
    assert(index * length <= u32::MAX * u32::MAX) by (nonlinear_arith)
        requires
            index <= u32::MAX,
            length <= u32::MAX,
    ;
    (index as u64) * (length as u64)
}

/// A block of sound starts with its part: where the frames are cut into
/// parts of `m` frames, the frame at which block `index` starts is the first
/// frame of part `index`.
pub proof fn lemma_block_starts_part(index: int, m: int)
    requires
        0 <= index,
        0 < m,
    ensures
        (index * m) / m == index,
        forall|k: int| 0 <= k && #[trigger] (k / m) == index ==> index * m <= k,
{
    assert((index * m) / m == index) by (nonlinear_arith)
        requires
            0 <= index,
            0 < m,
    ;
    assert forall|k: int| 0 <= k && #[trigger] (k / m) == index implies index * m <= k by {
        assert(index * m <= k) by (nonlinear_arith)
            requires
                0 <= k,
                0 < m,
                k / m == index,
        ;
    }
}

} // verus!

//! From an animation to a video: which frame of which part gets which place
//! in the one run of frames that is encoded, and how the encoding is cut.

use vstd::prelude::*;
use vstd::string::*;
use crate::audio::{audio_track, audio_track_name, is_listed};
use crate::error::Error;
use crate::frames::{
    copy_frames_sequential, copy_indices, detect_frame_extension, detected_format,
    format_extension, frame_name, is_frame_order, FrameCopy, ImageFormat,
};
use crate::order::{is_name_order, sort_names};
use crate::text::{decimal_digits, push_decimal};

verus! {

/// A directory of the unpacked animation, with the names of what it holds.
#[derive(Clone, Debug, PartialEq, Eq)]
pub struct PartListing {
    pub name: String,
    pub files: Vec<String>,
}

/// A part of the animation.
#[derive(Clone, Debug, PartialEq, Eq)]
pub struct PartInfo {
    /// The position of its directory in the listing.
    pub index: usize,
    /// The name of its directory.
    pub name: String,
    /// Whether the directory holds `audio.wav`.
    pub has_audio: bool,
}

/// A part with its place in the run of frames.
#[derive(Clone, Debug, PartialEq, Eq)]
pub struct PartPlan {
    /// The position of its directory in the listing.
    pub index: usize,
    /// The name of its directory.
    pub name: String,
    /// Whether the directory holds `audio.wav`.
    pub has_audio: bool,
    /// The number of its first frame in the run.
    pub start_frame: u32,
    /// The number of its frames.
    pub frame_count: u32,
    /// Its frames, in their order.
    pub copies: Vec<FrameCopy>,
}

/// What has to be done to turn an animation into a video.
#[derive(Clone, Debug, PartialEq, Eq)]
pub struct DecodePlan {
    /// The format of the frames.
    pub format: ImageFormat,
    /// The parts, in their order.
    pub parts: Vec<PartPlan>,
    /// The number of frames of all parts.
    pub total_frames: u32,
    /// Whether each part is encoded by itself, with its sound where it has
    /// one, and the pieces are joined; otherwise the whole run is encoded at
    /// once, without sound.
    pub segmented: bool,
}

/// How the pieces that were encoded become the video.
#[derive(Clone, Copy, Debug, PartialEq, Eq, Structural)]
pub enum Stitch {
    /// There is no piece.
    Nothing,
    /// There is one piece: it is the video.
    Copy,
    /// The pieces are joined without being encoded again, in the order of
    /// their parts.
    Concat,
}

/// The names of the directories of a listing.
pub open spec fn listing_names(listings: Seq<PartListing>) -> Seq<Seq<char>> {
    Seq::new(listings.len(), |i: int| listings[i].name@)
}

/// The positions, in the listing, of the directories of the parts.
pub open spec fn part_indices(parts: Seq<PartInfo>) -> Seq<usize> {
    Seq::new(parts.len(), |i: int| parts[i].index)
}

/// The number of files in the directories of the first `n` parts.
pub open spec fn files_before(listings: Seq<PartListing>, parts: Seq<PartInfo>, n: int) -> int
    decreases n,
{
    if n <= 0 {
        0
    } else {
        files_before(listings, parts, n - 1) + listings[parts[n - 1].index as int].files.len()
    }
}

/// The number of frames of the first `n` parts.
pub open spec fn frames_before(parts: Seq<PartPlan>, n: int) -> int
    decreases n,
{
    if n <= 0 {
        0
    } else {
        frames_before(parts, n - 1) + parts[n - 1].frame_count
    }
}

/// Some part has sound.
pub open spec fn any_audio(parts: Seq<PartInfo>) -> bool {
    exists|i: int| 0 <= i < parts.len() && (#[trigger] parts[i]).has_audio
}

/// `plan` places the part `info`, whose directory holds `files`, in the run
/// of frames from the number `start` on: its frames are the files with the
/// extension `ext`, in the order of their ordinals, and they get the numbers
/// from `start` on, one after the other.
pub open spec fn is_part_plan(
    files: Seq<String>,
    info: PartInfo,
    ext: Seq<char>,
    start: int,
    plan: PartPlan,
) -> bool {
    &&& plan.index == info.index
    &&& plan.name@ == info.name@
    &&& plan.has_audio == info.has_audio
    &&& plan.start_frame == start
    &&& plan.frame_count == plan.copies.len()
    &&& is_frame_order(
        Seq::new(files.len(), |i: int| files[i]@),
        ext,
        copy_indices(plan.copies@),
    )
    &&& forall|k: int|
        0 <= k < plan.copies.len() ==> (#[trigger] plan.copies[k]).source@ == files[plan.copies[k].index as int]@
            && plan.copies[k].target@ == frame_name((start + k) as nat, ext)
}

/// Finds the parts of an unpacked animation: one for each directory, in the
/// order of the names of the directories. A part has sound if its directory
/// holds `audio.wav`.
pub fn collect_parts(listings: &Vec<PartListing>) -> (parts: Vec<PartInfo>)
    ensures
        is_name_order(listing_names(listings@), part_indices(parts@)),
        forall|i: int|
            0 <= i < parts.len() ==> {
                let p = #[trigger] parts[i];
                &&& p.name@ == listings[p.index as int].name@
                &&& p.has_audio == listings[p.index as int].files.deep_view().contains(audio_track())
            },
{
    let mut names: Vec<String> = Vec::new();
    let mut k: usize = 0;
    while k < listings.len()
        invariant
            k <= listings.len(),
            names.len() == k,
            forall|i: int| 0 <= i < k ==> (#[trigger] names[i])@ == listings[i].name@,
        decreases listings.len() - k,
    {
        names.push(listings[k].name.clone());
        k += 1;
    }
    let order = sort_names(&names);
    let track = audio_track_name();
    let mut parts: Vec<PartInfo> = Vec::new();
    let mut i: usize = 0;
    while i < order.len()
        invariant
            i <= order.len(),
            order.len() == listings.len(),
            forall|j: int| 0 <= j < order.len() ==> (#[trigger] order[j]) < listings.len(),
            track@ == audio_track(),
            parts.len() == i,
            forall|j: int|
                0 <= j < i ==> {
                    let p = #[trigger] parts[j];
                    &&& p.index == order[j]
                    &&& p.name@ == listings[p.index as int].name@
                    &&& p.has_audio == listings[p.index as int].files.deep_view().contains(
                        audio_track(),
                    )
                },
        decreases order.len() - i,
    {
        let index = order[i];
        let listing = &listings[index];
        parts.push(
            PartInfo {
                index,
                name: listing.name.clone(),
                has_audio: is_listed(&listing.files, &track),
            },
        );
        i += 1;
    }
    assert(part_indices(parts@) =~= order@);
    parts
}

/// Plans the way from the parts of an animation to one video.
///
/// The frames of all parts are brought into one run, numbered from 1 on
/// without a gap: each part starts where the one before it ended. The format
/// of the frames is that of the first part. With `with_audio`, and where some
/// part has sound, each part is encoded by itself; otherwise the whole run is
/// encoded at once.
///
/// It fails with [`Error::NoFramesFound`] where there is no part, or where
/// the first part holds neither PNG nor JPG frames.
pub fn plan_decode(listings: &Vec<PartListing>, parts: &Vec<PartInfo>, with_audio: bool) -> (r:
    Result<DecodePlan, Error>)
    requires
        forall|i: int| 0 <= i < parts.len() ==> (#[trigger] parts[i]).index < listings.len(),
        files_before(listings@, parts@, parts.len() as int) < u32::MAX,
    ensures
        r is Err <==> parts.len() == 0 || detected_format(
            listings[parts[0].index as int].files.deep_view(),
        ) is Err,
        r matches Err(e) ==> e == Error::NoFramesFound,
        r matches Ok(plan) ==> {
            &&& Ok::<ImageFormat, Error>(plan.format) == detected_format(
                listings[parts[0].index as int].files.deep_view(),
            )
            &&& plan.parts.len() == parts.len()
            &&& forall|i: int|
                0 <= i < parts.len() ==> is_part_plan(
                    listings[parts[i].index as int].files@,
                    parts[i],
                    format_extension(plan.format),
                    1 + frames_before(plan.parts@, i),
                    #[trigger] plan.parts[i],
                )
            &&& plan.total_frames == frames_before(plan.parts@, parts.len() as int)
            &&& plan.segmented == (with_audio && any_audio(parts@))
        },
{
    if parts.len() == 0 {
        return Err(Error::NoFramesFound);
    }
    let format = match detect_frame_extension(&listings[parts[0].index].files) {
        Ok(f) => f,
        Err(e) => {
            return Err(e);
        },
    };
    let extension = format.extension();
    let mut plans: Vec<PartPlan> = Vec::new();
    let mut counter: u32 = 1;
    let mut audio = false;
    let mut i: usize = 0;
    while i < parts.len()
        invariant
            i <= parts.len(),
            forall|j: int| 0 <= j < parts.len() ==> (#[trigger] parts[j]).index < listings.len(),
            files_before(listings@, parts@, parts.len() as int) < u32::MAX,
            extension@ == format_extension(format),
            plans.len() == i,
            counter >= 1,
            counter == 1 + frames_before(plans@, i as int),
            counter <= 1 + files_before(listings@, parts@, i as int),
            audio == any_audio(parts@.take(i as int)),
            forall|j: int|
                0 <= j < i ==> is_part_plan(
                    listings[parts[j].index as int].files@,
                    parts[j],
                    format_extension(format),
                    1 + frames_before(plans@, j),
                    #[trigger] plans[j],
                ),
        decreases parts.len() - i,
    {
        let info = &parts[i];
        let files = &listings[info.index].files;
        proof {
            lemma_files_before_grows(listings@, parts@, i + 1, parts.len() as int);
            assert(files.deep_view() =~= Seq::new(files@.len(), |k: int| files@[k]@));
        }
        let (copies, next) = copy_frames_sequential(files, extension, counter);
        let plan = PartPlan {
            index: info.index,
            name: info.name.clone(),
            has_audio: info.has_audio,
            start_frame: counter,
            frame_count: next - counter,
            copies,
        };
        let ghost before = plans@;
        plans.push(plan);
        proof {
            assert forall|j: int| 0 <= j < i + 1 implies is_part_plan(
                listings[parts[j].index as int].files@,
                parts[j],
                format_extension(format),
                1 + frames_before(plans@, j),
                #[trigger] plans[j],
            ) by {
                lemma_frames_before_prefix(before, plans@, j);
            }
            lemma_any_audio_step(parts@, i as int);
        }
        audio = audio || info.has_audio;
        counter = next;
        i += 1;
    }
    proof {
        assert(parts@.take(parts.len() as int) =~= parts@);
    }
    Ok(DecodePlan { format, parts: plans, total_frames: counter - 1, segmented: with_audio && audio })
}

/// More parts have no fewer files.
proof fn lemma_files_before_grows(listings: Seq<PartListing>, parts: Seq<PartInfo>, a: int, b: int)
    requires
        0 <= a <= b,
    ensures
        files_before(listings, parts, a) <= files_before(listings, parts, b),
    decreases b - a,
{
    if a < b {
        lemma_files_before_grows(listings, parts, a, b - 1);
    }
}

/// The frames of the first `n` parts are counted alike in two lists of parts
/// that agree on those parts.
proof fn lemma_frames_before_prefix(a: Seq<PartPlan>, b: Seq<PartPlan>, n: int)
    requires
        n <= a.len() <= b.len(),
        forall|i: int| 0 <= i < a.len() ==> a[i] == b[i],
    ensures
        frames_before(a, n) == frames_before(b, n),
    decreases n,
{
    if n > 0 {
        lemma_frames_before_prefix(a, b, n - 1);
    }
}

/// Among one part more, some part has sound if one had it before or the new
/// one has it.
proof fn lemma_any_audio_step(parts: Seq<PartInfo>, k: int)
    requires
        0 <= k < parts.len(),
    ensures
        any_audio(parts.take(k + 1)) == (any_audio(parts.take(k)) || parts[k].has_audio),
{
    let b = parts.take(k + 1);
    if parts[k].has_audio {
        assert(b[k] == parts[k]);
    }
}

/// In the run of frames, the part at position `i` holds the frame with the
/// given number.
pub open spec fn part_holds(parts: Seq<PartPlan>, i: int, number: int) -> bool {
    &&& 0 <= i < parts.len()
    &&& 1 + frames_before(parts, i) <= number < 1 + frames_before(parts, i) + parts[i].frame_count
}

/// More parts have no fewer frames.
proof fn lemma_frames_before_grows(parts: Seq<PartPlan>, a: int, b: int)
    requires
        0 <= a <= b,
    ensures
        frames_before(parts, a) <= frames_before(parts, b),
    decreases b - a,
{
    if a < b {
        lemma_frames_before_grows(parts, a, b - 1);
    }
}

/// A number up to the number of frames of the first `n` parts is held by one
/// of them.
proof fn lemma_some_part_holds(parts: Seq<PartPlan>, n: int, number: int)
    requires
        0 <= n <= parts.len(),
        1 <= number <= frames_before(parts, n),
    ensures
        exists|i: int| 0 <= i < n && part_holds(parts, i, number),
    decreases n,
{
    if number > frames_before(parts, n - 1) {
        assert(part_holds(parts, n - 1, number));
    } else {
        lemma_some_part_holds(parts, n - 1, number);
    }
}

/// The numbering is without a gap and gives no number twice: where each part
/// starts behind the one before it, every number from 1 to the number of all
/// frames belongs to a frame of exactly one part.
pub proof fn lemma_numbering_contiguous(parts: Seq<PartPlan>, number: int)
    requires
        1 <= number <= frames_before(parts, parts.len() as int),
    ensures
        exists|i: int| part_holds(parts, i, number),
        forall|i: int, j: int|
            part_holds(parts, i, number) && part_holds(parts, j, number) ==> i == j,
{
    lemma_some_part_holds(parts, parts.len() as int, number);
    assert forall|i: int, j: int|
        part_holds(parts, i, number) && part_holds(parts, j, number) implies i == j by {
        if i < j {
            lemma_frames_before_grows(parts, i + 1, j);
        } else if j < i {
            lemma_frames_before_grows(parts, j + 1, i);
        }
    }
}

/// How the pieces become the video: one piece is the video, more are joined.
pub fn stitch_mode(pieces: usize) -> (r: Stitch)
    ensures
        r == (if pieces == 0 {
            Stitch::Nothing
        } else if pieces == 1 {
            Stitch::Copy
        } else {
            Stitch::Concat
        }),
{
    if pieces == 0 {
        Stitch::Nothing
    } else if pieces == 1 {
        Stitch::Copy
    } else {
        Stitch::Concat
    }
}

/// The name of the file of the piece that is encoded for the part at the
/// given position.
pub open spec fn segment_name(position: nat) -> Seq<char> {
    seq!['p', 'a', 'r', 't'] + decimal_digits(position) + seq!['.', 'm', 'p', '4']
}

/// The name of the file of the piece that is encoded for the part at the
/// given position: `part0.mp4`, `part1.mp4` and so on.
pub fn segment_file_name(position: usize) -> (name: String)
    ensures
        name@ == segment_name(position as nat),
{
    let mut name = String::new();
    name.push('p');
    name.push('a');
    name.push('r');
    name.push('t');
    push_decimal(&mut name, position as u64);
    name.push('.');
    name.push('m');
    name.push('p');
    name.push('4');
    name
}

} // verus!

//! Parts: cutting one run of frames into parts of bounded size, and finding
//! the parts of an animation that was unpacked.

use vstd::prelude::*;
use vstd::string::*;
use crate::error::Error;
use crate::order::{is_name_order, sort_names};
use crate::descriptor::part_name;
use crate::text::push_decimal;

verus! {

/// The number of frames that a part takes at most, where nothing else is
/// asked for.
pub const DEFAULT_MAX_FRAMES: u32 = 400;

/// The greatest number of frames that a part takes: `max_frames`, and 1
/// where that is 0.
pub open spec fn part_capacity(max_frames: u32) -> int {
    if max_frames == 0 {
        1
    } else {
        max_frames as int
    }
}

/// The number of frames in the part with index `p`, where `n` frames are cut
/// into parts of `m` frames.
pub open spec fn part_frame_count(n: int, m: int, p: int) -> int {
    if (p + 1) * m <= n {
        m
    } else if p * m < n {
        n - p * m
    } else {
        0
    }
}

/// The name of the directory of the part with the given index: `part0`,
/// `part1` and so on.
pub fn part_dir_name(index: u32) -> (name: String)
    ensures
        name@ == part_name(index as nat),
{
    let mut name = String::new();
    name.push('p');
    name.push('a');
    name.push('r');
    name.push('t');
    push_decimal(&mut name, index as u64);
    name
}

/// One frame that is moved into its part.
#[derive(Clone, Debug, PartialEq, Eq)]
pub struct FrameMove {
    /// The position of the file in the listing of the frames.
    pub index: usize,
    /// The name of the file.
    pub source: String,
    /// The index of the part that takes it.
    pub part_index: u32,
}

/// The positions, in the listing of the frames, of the frames that are
/// moved.
pub open spec fn move_indices(moves: Seq<FrameMove>) -> Seq<usize> {
    Seq::new(moves.len(), |i: int| moves[i].index)
}

/// Cuts the frames into parts: in the order of their names, the first
/// `max_frames` frames go to part 0, the next to part 1, and so on; with
/// `max_frames` 0 every frame is a part of its own. Returned with the moves
/// is the index of the last part, so there is one part more than it says.
///
/// Without a frame there is nothing to cut: [`Error::NoFramesToProcess`].
pub fn organize_frames_into_parts(frames: &Vec<String>, max_frames: u32) -> (r: Result<
    (Vec<FrameMove>, u32),
    Error,
>)
    requires
        frames.len() <= u32::MAX,
    ensures
        frames.len() == 0 <==> r is Err,
        r matches Err(e) ==> e == Error::NoFramesToProcess,
        r matches Ok((moves, num_parts)) ==> {
            &&& is_name_order(frames.deep_view(), move_indices(moves@))
            &&& forall|i: int|
                0 <= i < moves.len() ==> (#[trigger] moves[i]).source@ == frames[moves[i].index as int]@
                    && moves[i].part_index == i / part_capacity(max_frames)
            &&& num_parts == (frames.len() - 1) / part_capacity(max_frames)
        },
{
    if frames.len() == 0 {
        return Err(Error::NoFramesToProcess);
    }
    let capacity: usize = if max_frames == 0 {
        1
    } else {
        max_frames as usize
    };
    let order = sort_names(frames);
    let mut moves: Vec<FrameMove> = Vec::new();
    let mut i: usize = 0;
    while i < order.len()
        invariant
            i <= order.len(),
            order.len() == frames.len(),
            frames.len() <= u32::MAX,
            capacity == part_capacity(max_frames),
            is_name_order(frames.deep_view(), order@),
            moves.len() == i,
            forall|j: int|
                0 <= j < i ==> (#[trigger] moves[j]).index == order[j] && moves[j].source@
                    == frames[order[j] as int]@ && moves[j].part_index == j / part_capacity(
                    max_frames,
                ),
        decreases order.len() - i,
    {
        let index = order[i];
        let part: usize = i / capacity;
        moves.push(FrameMove { index, source: frames[index].clone(), part_index: part as u32 });
        i += 1;
    }
    let last: usize = (frames.len() - 1) / capacity;
    proof {
        assert(move_indices(moves@) =~= order@);
    }
    Ok((moves, last as u32))
}

/// Cutting `n` frames into parts of `m` frames gives as many parts as `n / m`
/// rounded up. The part with index `p` holds the frames at the positions
/// from `p * m` on, as many as [`part_frame_count`] says: `m` in every part
/// but the last, and between 1 and `m` in the last.
pub proof fn lemma_partition(n: int, m: int)
    requires
        0 < n,
        0 < m,
    ensures
        (n - 1) / m + 1 == (n + m - 1) / m,
        forall|i: int, p: int|
            0 <= i < n ==> (#[trigger] (i / m) == p <==> p * m <= i < p * m + #[trigger] part_frame_count(
                n,
                m,
                p,
            )),
        forall|p: int| 0 <= p < (n - 1) / m ==> #[trigger] part_frame_count(n, m, p) == m,
        1 <= part_frame_count(n, m, (n - 1) / m) <= m,
{
    let last = (n - 1) / m;
    assert((n - 1) / m + 1 == (n + m - 1) / m) by (nonlinear_arith)
        requires
            0 < n,
            0 < m,
    ;
    assert(last * m <= n - 1 < (last + 1) * m) by (nonlinear_arith)
        requires
            0 < n,
            0 < m,
            last == (n - 1) / m,
    ;
    assert((last + 1) * m == last * m + m) by (nonlinear_arith);
    assert forall|p: int| 0 <= p < last implies #[trigger] part_frame_count(n, m, p) == m by {
        assert((p + 1) * m <= last * m) by (nonlinear_arith)
            requires
                p + 1 <= last,
                0 < m,
        ;
    }
    assert forall|i: int, p: int| 0 <= i < n implies (#[trigger] (i / m) == p <==> p * m <= i < p * m
        + #[trigger] part_frame_count(n, m, p)) by {
        lemma_quotient_is(i, m, p);
        if (p + 1) * m <= n {
            assert((p + 1) * m == p * m + m) by (nonlinear_arith);
        }
    }
}

/// `i / m` is `p` exactly where `i` lies in the `p`-th stretch of length `m`.
proof fn lemma_quotient_is(i: int, m: int, p: int)
    requires
        0 <= i,
        0 < m,
    ensures
        i / m == p <==> p * m <= i < (p + 1) * m,
{
    assert(i / m == p <==> p * m <= i < (p + 1) * m) by (nonlinear_arith)
        requires
            0 <= i,
            0 < m,
    ;
}

} // verus!

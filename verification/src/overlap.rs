use vstd::prelude::*;
use crate::model::{SponsorTime, key_gt, float_gt};
use crate::text::str_equals;

verus! {

/// The overlap table handed in with the rows: `levels[i][j]` is how many of
/// the three thresholds `0.1`, `0.6` and `0.8` the `f32` ratio
/// `(min(end_i, end_j) - max(start_i, start_j)) / (max(end_i, end_j) - min(start_i, start_j))`
/// strictly exceeds (0 to 3; 0 where the ratio is NaN). It has a line of
/// `rows.len()` entries for every row.
pub open spec fn levels_fit(rows: Seq<SponsorTime>, levels: Seq<Vec<u8>>) -> bool {
    &&& levels.len() == rows.len()
    &&& forall|i: int| 0 <= i < levels.len() ==> (#[trigger] levels[i])@.len() == rows.len()
}

/// The level that the overlap ratio must exceed: above `0.8` (level 2) for
/// chapters, above `0.6` (level 1) between segments of the same action type,
/// above `0.1` (level 0) otherwise.
pub open spec fn threshold_level(
    other_category: Seq<char>,
    action: Seq<char>,
    other_action: Seq<char>,
) -> u8 {
    if other_category == "chapter"@ {
        2
    } else if action == other_action {
        1
    } else {
        0
    }
}

/// The segment of row `i` overlaps the segment of row `j`: same category, and
/// either segment `i` lies strictly inside segment `j`, or the overlap ratio
/// exceeds the threshold of the pair.
pub open spec fn overlaps(rows: Seq<SponsorTime>, levels: Seq<Vec<u8>>, i: int, j: int) -> bool {
    &&& rows[i].category@ == rows[j].category@
    &&& {
        ||| key_gt(rows[i].start_time, rows[j].start_time) && key_gt(
            rows[j].end_time,
            rows[i].end_time,
        )
        ||| levels[i]@[j] > threshold_level(
            rows[j].category@,
            rows[i].action_type@,
            rows[j].action_type@,
        )
    }
}

/// Decides [`overlaps`] for rows `i` and `j`.
pub fn is_overlap(
    rows: &Vec<SponsorTime>,
    levels: &Vec<Vec<u8>>,
    i: usize,
    j: usize,
) -> (r: bool)
    requires
        levels_fit(rows@, levels@),
        i < rows.len(),
        j < rows.len(),
    ensures
        r == overlaps(rows@, levels@, i as int, j as int),
{
    let seg = &rows[i];
    let other = &rows[j];
    if seg.category != other.category {
        return false;
    }
    if float_gt(seg.start_time, other.start_time) && float_gt(other.end_time, seg.end_time) {
        return true;
    }
    let threshold: u8 = if str_equals(other.category.as_str(), "chapter") {
        2
    } else if seg.action_type == other.action_type {
        1
    } else {
        0
    };
    let line = &levels[i];
    assert(line@.len() == rows@.len());
    line[j] > threshold
}

} // verus!

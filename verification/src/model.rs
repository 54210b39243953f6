use vstd::prelude::*;

verus! {

/// Stands for an `f32` value read from the database.
///
/// `None` stands for NaN. `Some(k)` is an integer key of the number: keys are
/// ordered as the numbers are, and two numbers are equal exactly when their
/// keys are equal (so `-0.0` and `0.0` share the key `0`).
pub type FloatKey = Option<i32>;

/// `a > b` on the numbers that the keys stand for (false when either is NaN).
pub open spec fn key_gt(a: FloatKey, b: FloatKey) -> bool {
    a is Some && b is Some && a->0 > b->0
}

/// `a == b` on the numbers that the keys stand for (false when either is NaN).
pub open spec fn key_eq(a: FloatKey, b: FloatKey) -> bool {
    a is Some && b is Some && a->0 == b->0
}

/// Executable `a > b` on float keys.
pub fn float_gt(a: FloatKey, b: FloatKey) -> (r: bool)
    ensures
        r == key_gt(a, b),
{
    match (a, b) {
        (Some(x), Some(y)) => x > y,
        _ => false,
    }
}

/// Executable `a == b` on float keys.
pub fn float_eq(a: FloatKey, b: FloatKey) -> (r: bool)
    ensures
        r == key_eq(a, b),
{
    match (a, b) {
        (Some(x), Some(y)) => x == y,
        _ => false,
    }
}


/// One submission row of the `sponsorTimes` table, as the segment logic reads
/// it. The `f32` columns are held as [`FloatKey`]s.
pub struct SponsorTime {
    pub video_id: String,
    pub start_time: FloatKey,
    pub end_time: FloatKey,
    pub votes: i32,
    pub locked: i32,
    pub incorrect_votes: i32,
    pub uuid: String,
    pub user_id: String,
    pub time_submitted: i64,
    pub views: i32,
    pub category: String,
    pub action_type: String,
    pub service: String,
    pub video_duration: FloatKey,
    pub hidden: i32,
    pub reputation: FloatKey,
    pub shadow_hidden: i32,
    pub hashed_video_id: String,
    pub user_agent: String,
    pub description: String,
}

/// A segment as it is answered to clients. `start` and `end` stand for the
/// two numbers of the answered `segment` pair; `row` is the index, in the rows
/// that were searched, of the row the segment was taken from (its numbers are
/// read back from there when the answer is written).
pub struct Segment {
    pub uuid: String,
    pub action_type: String,
    pub category: String,
    pub description: String,
    pub locked: i32,
    pub start: FloatKey,
    pub end: FloatKey,
    pub user_id: String,
    pub video_duration: FloatKey,
    pub votes: i32,
    pub row: usize,
}

/// The segments of one video, keyed by the hash of its id.
pub struct Sponsor {
    pub hash: String,
    pub video_id: String,
    pub segments: Vec<Segment>,
}

/// The segment that row `r` of `rows` gives.
pub open spec fn segment_of(rows: Seq<SponsorTime>, r: int) -> Segment {
    Segment {
        uuid: rows[r].uuid,
        action_type: rows[r].action_type,
        category: rows[r].category,
        description: rows[r].description,
        locked: rows[r].locked,
        start: rows[r].start_time,
        end: rows[r].end_time,
        user_id: rows[r].user_id,
        video_duration: rows[r].video_duration,
        votes: rows[r].votes,
        row: r as usize,
    }
}

/// Field-wise equality of the segments that rows `a` and `b` give, every field
/// but the row index: text and integers compare equal when they are equal,
/// numbers as `f32` do (NaN equals nothing).
pub open spec fn same_segment(rows: Seq<SponsorTime>, a: int, b: int) -> bool {
    &&& rows[a].uuid@ == rows[b].uuid@
    &&& rows[a].action_type@ == rows[b].action_type@
    &&& rows[a].category@ == rows[b].category@
    &&& rows[a].description@ == rows[b].description@
    &&& rows[a].locked == rows[b].locked
    &&& key_eq(rows[a].start_time, rows[b].start_time)
    &&& key_eq(rows[a].end_time, rows[b].end_time)
    &&& rows[a].user_id@ == rows[b].user_id@
    &&& key_eq(rows[a].video_duration, rows[b].video_duration)
    &&& rows[a].votes == rows[b].votes
}

/// No two rows share a UUID (the primary key of the table).
pub open spec fn uuids_distinct(rows: Seq<SponsorTime>) -> bool {
    forall|i: int, j: int|
        0 <= i < rows.len() && 0 <= j < rows.len() && i != j ==> #[trigger] rows[i].uuid@
            != #[trigger] rows[j].uuid@
}

/// Decides [`uuids_distinct`].
pub fn distinct_uuids(rows: &Vec<SponsorTime>) -> (b: bool)
    ensures
        b == uuids_distinct(rows@),
{
    let mut i: usize = 0;
    while i < rows.len()
        invariant
            i <= rows.len(),
            forall|a: int, c: int|
                0 <= a < i && 0 <= c < rows.len() && a != c ==> #[trigger] rows@[a].uuid@
                    != #[trigger] rows@[c].uuid@,
        decreases rows.len() - i,
    {
        let mut j: usize = 0;
        while j < rows.len()
            invariant
                i < rows.len(),
                j <= rows.len(),
                forall|a: int, c: int|
                    0 <= a < i && 0 <= c < rows.len() && a != c ==> #[trigger] rows@[a].uuid@
                        != #[trigger] rows@[c].uuid@,
                forall|c: int| 0 <= c < j && c != i ==> rows@[i as int].uuid@ != #[trigger] rows@[c].uuid@,
            decreases rows.len() - j,
        {
            if j != i && rows[i].uuid == rows[j].uuid {
                return false;
            }
            j = j + 1;
        }
        i = i + 1;
    }
    true
}

/// Builds the segment that row `r` gives.
pub fn make_segment(rows: &Vec<SponsorTime>, r: usize) -> (s: Segment)
    requires
        r < rows.len(),
    ensures
        s == segment_of(rows@, r as int),
        s.row == r,
        s.uuid@ == rows@[r as int].uuid@,
        s.action_type@ == rows@[r as int].action_type@,
        s.category@ == rows@[r as int].category@,
        s.description@ == rows@[r as int].description@,
        s.locked == rows@[r as int].locked,
        s.start == rows@[r as int].start_time,
        s.end == rows@[r as int].end_time,
        s.user_id@ == rows@[r as int].user_id@,
        s.video_duration == rows@[r as int].video_duration,
        s.votes == rows@[r as int].votes,
{
    let row = &rows[r];
    Segment {
        uuid: row.uuid.clone(),
        action_type: row.action_type.clone(),
        category: row.category.clone(),
        description: row.description.clone(),
        locked: row.locked,
        start: row.start_time,
        end: row.end_time,
        user_id: row.user_id.clone(),
        video_duration: row.video_duration,
        votes: row.votes,
        row: r,
    }
}

/// Decides [`same_segment`] for rows `a` and `b`.
pub fn same_segment_rows(rows: &Vec<SponsorTime>, a: usize, b: usize) -> (r: bool)
    requires
        a < rows.len(),
        b < rows.len(),
    ensures
        r == same_segment(rows@, a as int, b as int),
{
    let x = &rows[a];
    let y = &rows[b];
    x.uuid == y.uuid && x.action_type == y.action_type && x.category == y.category
        && x.description == y.description && x.locked == y.locked && float_eq(
        x.start_time,
        y.start_time,
    ) && float_eq(x.end_time, y.end_time) && x.user_id == y.user_id && float_eq(
        x.video_duration,
        y.video_duration,
    ) && x.votes == y.votes
}

} // verus!

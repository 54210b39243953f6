use vstd::prelude::*;
use vstd::string::*;
use crate::model::{SponsorTime, Sponsor, Segment, segment_of, same_segment, uuids_distinct, make_segment, same_segment_rows};
use crate::outside::texts;
use crate::overlap::{levels_fit, overlaps, is_overlap};
use crate::request::{SegmentQuery, VideoName};
use crate::text::{has_prefix, lex_lt, chars_of};
use crate::order::{no_repeats, uuid_keys, sort_by_uuid};

verus! {

/// The database search asks for the visible rows (neither hidden nor shadow
/// hidden, no negative vote total) of the asked categories that belong to the
/// asked video: its hashed id starts with the asked prefix, or its id is the
/// asked id.
pub open spec fn row_selected(row: SponsorTime, query: SegmentQuery) -> bool {
    &&& row.shadow_hidden == 0
    &&& row.hidden == 0
    &&& row.votes >= 0
    &&& texts(query.categories@).contains(row.category@)
    &&& match query.name {
        VideoName::ByHashPrefix(p) => p@.is_prefix_of(row.hashed_video_id@),
        VideoName::ByID(id) => row.video_id@ == id@,
    }
}

/// The indices, in order, of the first `n` rows that the search selects.
pub open spec fn selected(rows: Seq<SponsorTime>, query: SegmentQuery, n: int) -> Seq<usize>
    decreases n,
{
    if n <= 0 {
        seq![]
    } else if row_selected(rows[n - 1], query) {
        selected(rows, query, n - 1).push((n - 1) as usize)
    } else {
        selected(rows, query, n - 1)
    }
}

/// Every selected index is below `n`.
pub proof fn lemma_selected_bounded(rows: Seq<SponsorTime>, query: SegmentQuery, n: int)
    ensures
        forall|t: int|
            0 <= t < selected(rows, query, n).len() ==> #[trigger] selected(rows, query, n)[t] < n,
    decreases n,
{
    if n > 0 {
        lemma_selected_bounded(rows, query, n - 1);
        let prev = selected(rows, query, n - 1);
        assert forall|t: int| 0 <= t < selected(rows, query, n).len() implies #[trigger] selected(
            rows,
            query,
            n,
        )[t] < n by {
            if t < prev.len() {
                assert(selected(rows, query, n)[t] == prev[t]);
            }
        }
    }
}

/// `name` is one of `list`.
fn contains_text(list: &Vec<String>, name: &String) -> (r: bool)
    ensures
        r == texts(list@).contains(name@),
{
    let mut i: usize = 0;
    while i < list.len()
        invariant
            i <= list.len(),
            forall|k: int| 0 <= k < i ==> list@[k]@ != name@,
        decreases list.len() - i,
    {
        if list[i] == *name {
            assert(texts(list@)[i as int] == name@);
            return true;
        }
        i = i + 1;
    }
    assert forall|k: int| 0 <= k < texts(list@).len() implies texts(list@)[k] != name@ by {
        assert(texts(list@)[k] == list@[k]@);
    }
    false
}

/// Decides [`row_selected`].
pub fn row_matches(row: &SponsorTime, query: &SegmentQuery) -> (r: bool)
    ensures
        r == row_selected(*row, *query),
{
    if row.shadow_hidden != 0 || row.hidden != 0 || row.votes < 0 {
        return false;
    }
    if !contains_text(&query.categories, &row.category) {
        return false;
    }
    match &query.name {
        VideoName::ByHashPrefix(p) => has_prefix(row.hashed_video_id.as_str(), p.as_str()),
        VideoName::ByID(id) => row.video_id == *id,
    }
}

/// The indices of the rows that the search selects, in order.
pub fn select_rows(rows: &Vec<SponsorTime>, query: &SegmentQuery) -> (sel: Vec<usize>)
    ensures
        sel@ == selected(rows@, *query, rows@.len() as int),
{
    let mut sel: Vec<usize> = Vec::new();
    let mut i: usize = 0;
    while i < rows.len()
        invariant
            i <= rows.len(),
            sel@ == selected(rows@, *query, i as int),
        decreases rows.len() - i,
    {
        if row_matches(&rows[i], query) {
            sel.push(i);
        }
        i = i + 1;
    }
    sel
}

/// Row `j` is similar to row `r`: another submission (another UUID) for the
/// same hashed video whose segment the segment of `r` overlaps.
pub open spec fn similar_to(rows: Seq<SponsorTime>, levels: Seq<Vec<u8>>, r: int, j: int) -> bool {
    &&& rows[j].uuid@ != rows[r].uuid@
    &&& rows[j].hashed_video_id@ == rows[r].hashed_video_id@
    &&& overlaps(rows, levels, r, j)
}

/// The rows among the first `k` of `sel` that are similar to row `r`, in
/// order.
pub open spec fn similar(
    rows: Seq<SponsorTime>,
    levels: Seq<Vec<u8>>,
    sel: Seq<usize>,
    r: int,
    k: int,
) -> Seq<usize>
    decreases k,
{
    if k <= 0 {
        seq![]
    } else if similar_to(rows, levels, r, sel[k - 1] as int) {
        similar(rows, levels, sel, r, k - 1).push(sel[k - 1])
    } else {
        similar(rows, levels, sel, r, k - 1)
    }
}

/// The similar rows are rows of `sel`, so below any bound of `sel`.
proof fn lemma_similar_bounded(
    rows: Seq<SponsorTime>,
    levels: Seq<Vec<u8>>,
    sel: Seq<usize>,
    r: int,
    k: int,
    n: int,
)
    requires
        k <= sel.len(),
        forall|t: int| 0 <= t < sel.len() ==> #[trigger] sel[t] < n,
    ensures
        forall|t: int|
            0 <= t < similar(rows, levels, sel, r, k).len() ==> #[trigger] similar(
                rows,
                levels,
                sel,
                r,
                k,
            )[t] < n,
    decreases k,
{
    if k > 0 {
        lemma_similar_bounded(rows, levels, sel, r, k - 1, n);
        let prev = similar(rows, levels, sel, r, k - 1);
        assert forall|t: int| 0 <= t < similar(rows, levels, sel, r, k).len() implies #[trigger] similar(
            rows,
            levels,
            sel,
            r,
            k,
        )[t] < n by {
            if t < prev.len() {
                assert(similar(rows, levels, sel, r, k)[t] == prev[t]);
            }
        }
    }
}

/// The rows competing with row `r` for a place: the rows of `sel` similar
/// to it, then `r` itself.
pub open spec fn candidates(rows: Seq<SponsorTime>, levels: Seq<Vec<u8>>, sel: Seq<usize>, r: int) -> Seq<usize> {
    similar(rows, levels, sel, r, sel.len() as int).push(r as usize)
}

/// The first of the rows `c` with the most votes.
pub open spec fn best_of(rows: Seq<SponsorTime>, c: Seq<usize>) -> usize
    decreases c.len(),
{
    if c.len() <= 1 {
        c[0]
    } else {
        let b = best_of(rows, c.drop_last());
        if rows[c.last() as int].votes > rows[b as int].votes {
            c.last()
        } else {
            b
        }
    }
}

/// [`best_of`] is the row at the first position holding the largest vote
/// count.
pub proof fn lemma_best_of_first_max(rows: Seq<SponsorTime>, c: Seq<usize>) -> (m: int)
    requires
        c.len() > 0,
    ensures
        0 <= m < c.len(),
        best_of(rows, c) == c[m],
        forall|j: int| 0 <= j < c.len() ==> rows[c[j] as int].votes <= rows[c[m] as int].votes,
        forall|j: int| 0 <= j < m ==> rows[c[j] as int].votes < rows[c[m] as int].votes,
    decreases c.len(),
{
    if c.len() == 1 {
        0
    } else {
        let m0 = lemma_best_of_first_max(rows, c.drop_last());
        let last = c.len() - 1;
        if rows[c[last] as int].votes > rows[c[m0] as int].votes {
            assert forall|j: int| 0 <= j < c.len() implies rows[c[j] as int].votes <= rows[c[last] as int].votes by {
                if j < last {
                    assert(c[j] == c.drop_last()[j]);
                }
            }
            assert forall|j: int| 0 <= j < last implies rows[c[j] as int].votes < rows[c[last] as int].votes by {
                assert(c[j] == c.drop_last()[j]);
            }
            last
        } else {
            assert forall|j: int| 0 <= j < c.len() implies rows[c[j] as int].votes <= rows[c[m0] as int].votes by {
                if j < last {
                    assert(c[j] == c.drop_last()[j]);
                }
            }
            assert forall|j: int| 0 <= j < m0 implies rows[c[j] as int].votes < rows[c[m0] as int].votes by {
                assert(c[j] == c.drop_last()[j]);
            }
            assert(c[m0] == c.drop_last()[m0]);
            m0
        }
    }
}

/// The video groups built so far: the row that opened each group (it gives
/// the group's hash and video id) and the rows of its segments, in the order
/// they were taken.
pub struct Group {
    pub first: usize,
    pub segments: Seq<usize>,
}

/// The rows that opened the groups.
pub open spec fn firsts(st: Seq<Group>) -> Seq<usize> {
    st.map_values(|g: Group| g.first)
}

/// The position of the first of the groups opened by `firsts` whose hash is
/// `h`, or -1.
pub open spec fn group_index(rows: Seq<SponsorTime>, firsts: Seq<usize>, h: Seq<char>) -> int
    decreases firsts.len(),
{
    if firsts.len() == 0 {
        -1
    } else {
        let i = group_index(rows, firsts.drop_last(), h);
        if i >= 0 {
            i
        } else if rows[firsts.last() as int].hashed_video_id@ == h {
            firsts.len() - 1
        } else {
            -1
        }
    }
}

/// Some segment among `segs` is overlapped by the segment of row `r`.
pub open spec fn overlaps_any(rows: Seq<SponsorTime>, levels: Seq<Vec<u8>>, r: int, segs: Seq<usize>) -> bool {
    exists|t: int| 0 <= t < segs.len() && overlaps(rows, levels, r, #[trigger] segs[t] as int)
}

/// Some segment among `segs` equals the segment of row `b`.
pub open spec fn holds_same(rows: Seq<SponsorTime>, segs: Seq<usize>, b: int) -> bool {
    exists|t: int| 0 <= t < segs.len() && same_segment(rows, #[trigger] segs[t] as int, b)
}

/// Taking row `r` into the groups: its video's group is opened if there is
/// none yet. Unless its segment overlaps a segment the group already has, the
/// best of its candidates is added to the group, if the group does not hold
/// an equal segment yet.
pub open spec fn step(
    rows: Seq<SponsorTime>,
    levels: Seq<Vec<u8>>,
    sel: Seq<usize>,
    st: Seq<Group>,
    r: usize,
) -> Seq<Group> {
    let h = rows[r as int].hashed_video_id@;
    let gi = group_index(rows, firsts(st), h);
    let st1 = if gi < 0 {
        st.push(Group { first: r, segments: seq![] })
    } else {
        st
    };
    let g = if gi < 0 {
        st.len() as int
    } else {
        gi
    };
    let segs = st1[g].segments;
    if overlaps_any(rows, levels, r as int, segs) {
        st1
    } else {
        let best = best_of(rows, candidates(rows, levels, sel, r as int));
        if holds_same(rows, segs, best as int) {
            st1
        } else {
            st1.update(g, Group { first: st1[g].first, segments: segs.push(best) })
        }
    }
}

/// The groups after taking the first `k` rows of `sel`, in order.
pub open spec fn grouped(rows: Seq<SponsorTime>, levels: Seq<Vec<u8>>, sel: Seq<usize>, k: int) -> Seq<Group>
    decreases k,
{
    if k <= 0 {
        seq![]
    } else {
        step(rows, levels, sel, grouped(rows, levels, sel, k - 1), sel[k - 1])
    }
}

/// The rows similar to row `r` among the rows `sel`, in order.
pub fn similar_segments(
    rows: &Vec<SponsorTime>,
    levels: &Vec<Vec<u8>>,
    sel: &Vec<usize>,
    r: usize,
) -> (v: Vec<usize>)
    requires
        levels_fit(rows@, levels@),
        r < rows.len(),
        forall|t: int| 0 <= t < sel.len() ==> #[trigger] sel@[t] < rows.len(),
    ensures
        v@ == similar(rows@, levels@, sel@, r as int, sel.len() as int),
{
    let mut v: Vec<usize> = Vec::new();
    let mut k: usize = 0;
    while k < sel.len()
        invariant
            levels_fit(rows@, levels@),
            r < rows.len(),
            forall|t: int| 0 <= t < sel.len() ==> #[trigger] sel@[t] < rows.len(),
                k <= sel.len(),
            v@ == similar(rows@, levels@, sel@, r as int, k as int),
        decreases sel.len() - k,
    {
        let j = sel[k];
        if rows[j].uuid != rows[r].uuid && rows[j].hashed_video_id == rows[r].hashed_video_id
            && is_overlap(rows, levels, r, j) {
            v.push(j);
        }
        k = k + 1;
    }
    v
}

/// The first of the rows `c` with the most votes.
pub fn best_segment(rows: &Vec<SponsorTime>, c: &Vec<usize>) -> (b: usize)
    requires
        c.len() > 0,
        forall|t: int| 0 <= t < c.len() ==> #[trigger] c@[t] < rows.len(),
    ensures
        b == best_of(rows@, c@),
        exists|m: int|
            0 <= m < c.len() && b == c@[m] && (forall|j: int|
                0 <= j < c.len() ==> rows@[#[trigger] c@[j] as int].votes <= rows@[b as int].votes)
                && (forall|j: int| 0 <= j < m ==> rows@[#[trigger] c@[j] as int].votes < rows@[b as int].votes),
{
    let mut best = c[0];
    let mut best_votes = rows[best].votes;
    let mut i: usize = 1;
    assert(c@.take(1).drop_last() =~= seq![]);
    while i < c.len()
        invariant
            forall|t: int| 0 <= t < c.len() ==> #[trigger] c@[t] < rows.len(),
            1 <= i <= c.len(),
            best == best_of(rows@, c@.take(i as int)),
            best < rows.len(),
            best_votes == rows@[best as int].votes,
        decreases c.len() - i,
    {
        assert(c@.take(i + 1).drop_last() =~= c@.take(i as int));
        if rows[c[i]].votes > best_votes {
            best = c[i];
            best_votes = rows[best].votes;
        }
        i = i + 1;
    }
    assert(c@.take(c.len() as int) =~= c@);
    proof {
        let m = lemma_best_of_first_max(rows@, c@);
    }
    best
}

/// A group position found among the first `k` groups stays the one found
/// among all of them.
proof fn lemma_group_index_prefix(rows: Seq<SponsorTime>, f: Seq<usize>, h: Seq<char>, k: int)
    requires
        0 <= k <= f.len(),
        group_index(rows, f.take(k), h) >= 0,
    ensures
        group_index(rows, f, h) == group_index(rows, f.take(k), h),
    decreases f.len(),
{
    if k == f.len() {
        assert(f.take(k) =~= f);
    } else {
        assert(f.drop_last().take(k) =~= f.take(k));
        lemma_group_index_prefix(rows, f.drop_last(), h, k);
    }
}

/// A group position is -1 or the position of a group with the hash searched for.
pub proof fn lemma_group_index_range(rows: Seq<SponsorTime>, f: Seq<usize>, h: Seq<char>)
    ensures
        -1 <= group_index(rows, f, h) < f.len(),
        group_index(rows, f, h) >= 0 ==> rows[f[group_index(rows, f, h)] as int].hashed_video_id@
            == h,
    decreases f.len(),
{
    if f.len() > 0 {
        lemma_group_index_range(rows, f.drop_last(), h);
        let i = group_index(rows, f.drop_last(), h);
        if i >= 0 {
            assert(f[i] == f.drop_last()[i]);
        }
    }
}

/// The position of the group of the videos hashed `h`.
fn find_group(rows: &Vec<SponsorTime>, firsts: &Vec<usize>, h: &String) -> (r: Option<usize>)
    requires
        forall|t: int| 0 <= t < firsts.len() ==> #[trigger] firsts@[t] < rows.len(),
    ensures
        r matches Some(i) ==> i == group_index(rows@, firsts@, h@) && i < firsts.len(),
        r is None ==> group_index(rows@, firsts@, h@) == -1,
{
    let mut i: usize = 0;
    assert(firsts@.take(0) =~= seq![]);
    while i < firsts.len()
        invariant
            forall|t: int| 0 <= t < firsts.len() ==> #[trigger] firsts@[t] < rows.len(),
            i <= firsts.len(),
            group_index(rows@, firsts@.take(i as int), h@) == -1,
        decreases firsts.len() - i,
    {
        assert(firsts@.take(i + 1).drop_last() =~= firsts@.take(i as int));
        if rows[firsts[i]].hashed_video_id == *h {
            proof {
                lemma_group_index_prefix(rows@, firsts@, h@, i + 1);
            }
            return Some(i);
        }
        i = i + 1;
    }
    assert(firsts@.take(i as int) =~= firsts@);
    None
}

/// Decides [`overlaps_any`].
fn overlaps_existing(
    rows: &Vec<SponsorTime>,
    levels: &Vec<Vec<u8>>,
    r: usize,
    segs: &Vec<usize>,
) -> (b: bool)
    requires
        levels_fit(rows@, levels@),
        r < rows.len(),
        forall|t: int| 0 <= t < segs.len() ==> #[trigger] segs@[t] < rows.len(),
    ensures
        b == overlaps_any(rows@, levels@, r as int, segs@),
{
    let mut t: usize = 0;
    while t < segs.len()
        invariant
            levels_fit(rows@, levels@),
            r < rows.len(),
            forall|u: int| 0 <= u < segs.len() ==> #[trigger] segs@[u] < rows.len(),
                t <= segs.len(),
            forall|u: int| 0 <= u < t ==> !overlaps(rows@, levels@, r as int, #[trigger] segs@[u] as int),
        decreases segs.len() - t,
    {
        if is_overlap(rows, levels, r, segs[t]) {
            return true;
        }
        t = t + 1;
    }
    false
}

/// Decides [`holds_same`].
fn holds_segment(rows: &Vec<SponsorTime>, segs: &Vec<usize>, b: usize) -> (r: bool)
    requires
        b < rows.len(),
        forall|t: int| 0 <= t < segs.len() ==> #[trigger] segs@[t] < rows.len(),
    ensures
        r == holds_same(rows@, segs@, b as int),
{
    let mut t: usize = 0;
    while t < segs.len()
        invariant
            b < rows.len(),
            forall|u: int| 0 <= u < segs.len() ==> #[trigger] segs@[u] < rows.len(),
            t <= segs.len(),
            forall|u: int| 0 <= u < t ==> !same_segment(rows@, #[trigger] segs@[u] as int, b as int),
        decreases segs.len() - t,
    {
        if same_segment_rows(rows, segs[t], b) {
            return true;
        }
        t = t + 1;
    }
    false
}

/// The exec groups are the groups `st`.
pub open spec fn groups_are(firsts_v: Seq<usize>, groups: Seq<Vec<usize>>, st: Seq<Group>) -> bool {
    &&& firsts_v == firsts(st)
    &&& groups.len() == st.len()
    &&& forall|g: int| 0 <= g < st.len() ==> (#[trigger] groups[g])@ == st[g].segments
}

/// All rows named by the groups are below `n`.
pub open spec fn groups_bounded(firsts_v: Seq<usize>, groups: Seq<Vec<usize>>, n: int) -> bool {
    &&& forall|g: int| 0 <= g < firsts_v.len() ==> #[trigger] firsts_v[g] < n
    &&& forall|g: int, t: int|
        0 <= g < groups.len() && 0 <= t < groups[g]@.len() ==> #[trigger] groups[g]@[t] < n
}

/// Takes the rows `sel`, in order, into video groups.
fn group_rows(rows: &Vec<SponsorTime>, levels: &Vec<Vec<u8>>, sel: &Vec<usize>) -> (res: (
    Vec<usize>,
    Vec<Vec<usize>>,
))
    requires
        levels_fit(rows@, levels@),
        forall|t: int| 0 <= t < sel.len() ==> #[trigger] sel@[t] < rows.len(),
    ensures
        groups_are(res.0@, res.1@, grouped(rows@, levels@, sel@, sel.len() as int)),
        groups_bounded(res.0@, res.1@, rows.len() as int),
{
    let mut firsts_v: Vec<usize> = Vec::new();
    let mut groups: Vec<Vec<usize>> = Vec::new();
    let mut k: usize = 0;
    assert(firsts_v@ =~= firsts(grouped(rows@, levels@, sel@, 0)));
    while k < sel.len()
        invariant
            levels_fit(rows@, levels@),
            forall|t: int| 0 <= t < sel.len() ==> #[trigger] sel@[t] < rows.len(),
                k <= sel.len(),
            groups_are(firsts_v@, groups@, grouped(rows@, levels@, sel@, k as int)),
            groups_bounded(firsts_v@, groups@, rows.len() as int),
        decreases sel.len() - k,
    {
        let ghost st = grouped(rows@, levels@, sel@, k as int);
        let r = sel[k];
        proof {
            lemma_group_index_range(rows@, firsts(st), rows@[r as int].hashed_video_id@);
        }
        let g = match find_group(rows, &firsts_v, &rows[r].hashed_video_id) {
            Some(g) => g,
            None => {
                firsts_v.push(r);
                groups.push(Vec::new());
                assert(firsts_v@ =~= firsts(st.push(Group { first: r, segments: seq![] })));
                firsts_v.len() - 1
            },
        };
        let ghost st1 = if group_index(rows@, firsts(st), rows@[r as int].hashed_video_id@) < 0 {
            st.push(Group { first: r, segments: seq![] })
        } else {
            st
        };
        assert(firsts_v@ =~= firsts(st1));
        assert(groups_are(firsts_v@, groups@, st1));
        let ghost segs = st1[g as int].segments;
        assert(groups@[g as int]@ == segs);
        if !overlaps_existing(rows, levels, r, &groups[g]) {
            let mut c = similar_segments(rows, levels, sel, r);
            proof {
                lemma_similar_bounded(rows@, levels@, sel@, r as int, sel.len() as int, rows.len() as int);
            }
            c.push(r);
            assert(c@ == candidates(rows@, levels@, sel@, r as int));
            let best = best_segment(rows, &c);
            if !holds_segment(rows, &groups[g], best) {
                let ghost before = groups@;
                groups[g].push(best);
                let ghost st2 = st1.update(g as int, Group { first: st1[g as int].first, segments: segs.push(best) });
                assert(firsts(st2) =~= firsts(st1));
                assert forall|g2: int| 0 <= g2 < st2.len() implies (#[trigger] groups@[g2])@ == st2[g2].segments by {
                    if g2 != g {
                        assert(groups@[g2] == before[g2]);
                    }
                }
                assert(groups_are(firsts_v@, groups@, st2));
            }
        }
        assert(groups_are(firsts_v@, groups@, step(rows@, levels@, sel@, st, r)));
        k = k + 1;
    }
    (firsts_v, groups)
}

/// A search failure: some video group holds one row's segment twice, so the
/// segments of the group cannot be put in order. It happens only where a
/// selected row has a NaN number (see
/// [`crate::properties::lemma_numbers_never_unorderable`]).
pub enum SegmentError {
    Unorderable,
}

/// Some group holds a row twice.
pub open spec fn group_has_repeat(st: Seq<Group>) -> bool {
    exists|g: int| 0 <= g < st.len() && !no_repeats(#[trigger] st[g].segments)
}

/// The groups that the search builds from `rows`.
pub open spec fn search_groups(
    rows: Seq<SponsorTime>,
    levels: Seq<Vec<u8>>,
    query: SegmentQuery,
) -> Seq<Group> {
    let sel = selected(rows, query, rows.len() as int);
    grouped(rows, levels, sel, sel.len() as int)
}

/// `s` answers the group `g`: the hash and video id of the row that opened
/// the group, and the segments of the group's rows, in increasing order of
/// their UUIDs.
pub open spec fn answers_group(rows: Seq<SponsorTime>, s: Sponsor, g: Group) -> bool {
    &&& s.hash@ == rows[g.first as int].hashed_video_id@
    &&& s.video_id@ == rows[g.first as int].video_id@
    &&& s.segments@.len() == g.segments.len()
    &&& forall|k: int|
        0 <= k < s.segments@.len() ==> #[trigger] s.segments@[k] == segment_of(
            rows,
            s.segments@[k].row as int,
        )
    &&& forall|a: int, b: int|
        0 <= a < b < s.segments@.len() ==> lex_lt(
            (#[trigger] s.segments@[a]).uuid@,
            (#[trigger] s.segments@[b]).uuid@,
        )
    &&& forall|x: usize|
        #[trigger] g.segments.contains(x) <==> exists|k: int|
            0 <= k < s.segments@.len() && (#[trigger] s.segments@[k]).row == x
}

/// Decides whether `s` holds a row twice.
fn has_repeat(s: &Vec<usize>) -> (b: bool)
    ensures
        b == !no_repeats(s@),
{
    let mut a: usize = 0;
    while a < s.len()
        invariant
            a <= s.len(),
            forall|x: int, y: int| 0 <= x < a && x < y < s.len() ==> #[trigger] s@[x] != #[trigger] s@[y],
        decreases s.len() - a,
    {
        let mut b: usize = a + 1;
        while b < s.len()
            invariant
                a < s.len(),
                a < b <= s.len(),
                forall|x: int, y: int| 0 <= x < a && x < y < s.len() ==> #[trigger] s@[x] != #[trigger] s@[y],
                forall|y: int| a < y < b ==> s@[a as int] != #[trigger] s@[y],
            decreases s.len() - b,
        {
            if s[a] == s[b] {
                return true;
            }
            b = b + 1;
        }
        a = a + 1;
    }
    false
}

/// The characters of every row's UUID.
fn uuid_keys_of(rows: &Vec<SponsorTime>) -> (keys: Vec<Vec<char>>)
    ensures
        uuid_keys(rows@, keys@),
{
    let mut keys: Vec<Vec<char>> = Vec::new();
    let mut i: usize = 0;
    while i < rows.len()
        invariant
            i <= rows.len(),
            keys.len() == i,
            forall|k: int| 0 <= k < i ==> (#[trigger] keys@[k])@ == rows@[k].uuid@,
        decreases rows.len() - i,
    {
        keys.push(chars_of(rows[i].uuid.as_str()));
        i = i + 1;
    }
    keys
}

/// The answer for one group.
fn answer_group(
    rows: &Vec<SponsorTime>,
    keys: &Vec<Vec<char>>,
    first: usize,
    segs: &Vec<usize>,
    g: Ghost<Group>,
) -> (s: Sponsor)
    requires
        uuid_keys(rows@, keys@),
        uuids_distinct(rows@),
        no_repeats(segs@),
        first < rows.len(),
        forall|t: int| 0 <= t < segs.len() ==> #[trigger] segs@[t] < rows.len(),
        g@.first == first,
        g@.segments == segs@,
    ensures
        answers_group(rows@, s, g@),
{
    let order = sort_by_uuid(rows, keys, segs);
    let mut segments: Vec<Segment> = Vec::new();
    let mut k: usize = 0;
    while k < order.len()
        invariant
            forall|t: int| 0 <= t < order.len() ==> #[trigger] order@[t] < rows.len(),
            k <= order.len(),
            segments.len() == k,
            forall|t: int| 0 <= t < k ==> #[trigger] segments@[t] == segment_of(rows@, order@[t] as int),
        decreases order.len() - k,
    {
        segments.push(make_segment(rows, order[k]));
        k = k + 1;
    }
    let s = Sponsor {
        hash: rows[first].hashed_video_id.clone(),
        video_id: rows[first].video_id.clone(),
        segments,
    };
    assert forall|a: int, b: int| 0 <= a < b < s.segments@.len() implies lex_lt(
        (#[trigger] s.segments@[a]).uuid@,
        (#[trigger] s.segments@[b]).uuid@,
    ) by {
        assert(lex_lt(rows@[order@[a] as int].uuid@, rows@[order@[b] as int].uuid@));
    }
    assert forall|x: usize| #[trigger] g@.segments.contains(x) <==> exists|k: int|
        0 <= k < s.segments@.len() && (#[trigger] s.segments@[k]).row == x by {
        if g@.segments.contains(x) {
            assert(order@.contains(x));
            let t = choose|t: int| 0 <= t < order@.len() && order@[t] == x;
            assert(s.segments@[t].row == x);
        }
        if exists|k: int| 0 <= k < s.segments@.len() && (#[trigger] s.segments@[k]).row == x {
            let k = choose|k: int| 0 <= k < s.segments@.len() && (#[trigger] s.segments@[k]).row == x;
            assert(order@[k] == x);
            assert(order@.contains(x));
        }
    }
    s
}

/// Looks up the segments that a search asks for among `rows`, the rows the
/// database gave for it (only the rows the search selects are used), with
/// `levels` their overlap table. With no category asked for, the answer is
/// the empty list. Otherwise the selected rows are taken, in order, into one
/// group per hashed video id ([`grouped`]): a row whose segment overlaps one
/// its group already holds adds nothing; else the row and the rows similar to
/// it compete, and the first with the most votes joins the group unless the
/// group holds an equal segment. `None` is answered where no row is selected;
/// else the groups in the order they were opened, each with its segments in
/// increasing order of UUID.
pub fn find_skip_segments(
    query: &SegmentQuery,
    rows: &Vec<SponsorTime>,
    levels: &Vec<Vec<u8>>,
) -> (r: Result<Option<Vec<Sponsor>>, SegmentError>)
    requires
        uuids_distinct(rows@),
        levels_fit(rows@, levels@),
    ensures
        query.categories@.len() == 0 ==> (r matches Ok(Some(v)) && v@.len() == 0),
        query.categories@.len() > 0 ==> (r is Err <==> group_has_repeat(
            search_groups(rows@, levels@, *query),
        )),
        query.categories@.len() > 0 ==> (r matches Ok(None) <==> (!group_has_repeat(
            search_groups(rows@, levels@, *query),
        ) && search_groups(rows@, levels@, *query).len() == 0)),
        query.categories@.len() > 0 ==> (r matches Ok(Some(v)) ==> (v@.len() == search_groups(
            rows@,
            levels@,
            *query,
        ).len() && v@.len() > 0 && forall|i: int|
            0 <= i < v@.len() ==> answers_group(
                rows@,
                #[trigger] v@[i],
                search_groups(rows@, levels@, *query)[i],
            ))),
{
    if query.categories.len() == 0 {
        return Ok(Some(Vec::new()));
    }
    let sel = select_rows(rows, query);
    proof {
        lemma_selected_bounded(rows@, *query, rows@.len() as int);
    }
    let (firsts_v, groups) = group_rows(rows, levels, &sel);
    let ghost st = grouped(rows@, levels@, sel@, sel@.len() as int);
    assert(st == search_groups(rows@, levels@, *query));
    let mut g: usize = 0;
    while g < groups.len()
        invariant
            query.categories@.len() > 0,
            st == search_groups(rows@, levels@, *query),
            groups_are(firsts_v@, groups@, st),
            g <= groups.len(),
            forall|h: int| 0 <= h < g ==> no_repeats(#[trigger] st[h].segments),
        decreases groups.len() - g,
    {
        if has_repeat(&groups[g]) {
            assert(!no_repeats(st[g as int].segments));
            return Err(SegmentError::Unorderable);
        }
        g = g + 1;
    }
    if groups.len() == 0 {
        return Ok(None);
    }
    let keys = uuid_keys_of(rows);
    let mut out: Vec<Sponsor> = Vec::new();
    let mut g: usize = 0;
    while g < groups.len()
        invariant
            query.categories@.len() > 0,
            st == search_groups(rows@, levels@, *query),
            uuid_keys(rows@, keys@),
            uuids_distinct(rows@),
            groups_are(firsts_v@, groups@, st),
            groups_bounded(firsts_v@, groups@, rows@.len() as int),
            forall|h: int| 0 <= h < st.len() ==> no_repeats(#[trigger] st[h].segments),
            g <= groups.len(),
            out.len() == g,
            forall|h: int| 0 <= h < g ==> answers_group(rows@, #[trigger] out@[h], st[h]),
        decreases groups.len() - g,
    {
        assert(firsts_v@[g as int] == st[g as int].first);
        let s = answer_group(rows, &keys, firsts_v[g], &groups[g], Ghost(st[g as int]));
        out.push(s);
        g = g + 1;
    }
    Ok(Some(out))
}

/// How a search is answered: with the local result, or by asking the
/// central server at the fallback address.
pub enum Answer {
    Local(Vec<Sponsor>),
    Fallback(String),
}

/// Answers a search: the local result of [`find_skip_segments`] where it has
/// one, else the search's fallback address.
pub fn answer_search(
    query: &SegmentQuery,
    rows: &Vec<SponsorTime>,
    levels: &Vec<Vec<u8>>,
) -> (r: Result<Answer, SegmentError>)
    requires
        uuids_distinct(rows@),
        levels_fit(rows@, levels@),
    ensures
        query.categories@.len() == 0 ==> (r matches Ok(Answer::Local(v)) && v@.len() == 0),
        query.categories@.len() > 0 ==> (r is Err <==> group_has_repeat(
            search_groups(rows@, levels@, *query),
        )),
        query.categories@.len() > 0 ==> (r matches Ok(Answer::Fallback(_)) <==> (!group_has_repeat(
            search_groups(rows@, levels@, *query),
        ) && search_groups(rows@, levels@, *query).len() == 0)),
        r matches Ok(Answer::Fallback(url)) ==> url@ == query.fallback_url@,
        query.categories@.len() > 0 ==> (r matches Ok(Answer::Local(v)) ==> (v@.len()
            == search_groups(rows@, levels@, *query).len() && v@.len() > 0 && forall|i: int|
            0 <= i < v@.len() ==> answers_group(
                rows@,
                #[trigger] v@[i],
                search_groups(rows@, levels@, *query)[i],
            ))),
{
    match find_skip_segments(query, rows, levels) {
        Err(e) => Err(e),
        Ok(None) => Ok(Answer::Fallback(query.fallback_url.clone())),
        Ok(Some(v)) => Ok(Answer::Local(v)),
    }
}

} // verus!

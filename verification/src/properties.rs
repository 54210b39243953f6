use vstd::prelude::*;
use crate::model::{SponsorTime, Sponsor, Segment, segment_of, same_segment, uuids_distinct, key_gt};
use crate::order::no_repeats;
use crate::overlap::overlaps;
use crate::request::{SegmentQuery, VideoName, Lookup, name_view, search_view};
use crate::text::{lex_lt, lemma_lex_irreflexive, lemma_lex_transitive};
use crate::outside::texts;
use crate::skip::{
    Group, firsts, group_index, similar, similar_to, candidates, best_of, step, grouped,
    selected, search_groups, overlaps_any, holds_same, lemma_best_of_first_max,
    lemma_selected_bounded, answers_group, row_selected, lemma_group_index_range,
    group_has_repeat,
};

verus! {

/// The hashed video id of row `r`.
pub open spec fn hash_of(rows: Seq<SponsorTime>, r: int) -> Seq<char> {
    rows[r].hashed_video_id@
}

/// Row `r` is answered by the groups: the group of its video holds its own
/// segment or a segment that its segment overlaps.
pub open spec fn covered(rows: Seq<SponsorTime>, levels: Seq<Vec<u8>>, st: Seq<Group>, r: int) -> bool {
    exists|g: int, t: int|
        0 <= g < st.len() && 0 <= t < st[g].segments.len() && hash_of(rows, st[g].first as int)
            == hash_of(rows, r) && (#[trigger] st[g].segments[t] == r || overlaps(
            rows,
            levels,
            r,
            st[g].segments[t] as int,
        ))
}

/// `st2` keeps every group of `st` with its segments, possibly adding some.
pub open spec fn extends(st: Seq<Group>, st2: Seq<Group>) -> bool {
    &&& st2.len() >= st.len()
    &&& forall|g: int|
        0 <= g < st.len() ==> (#[trigger] st2[g]).first == st[g].first && st2[g].segments.len()
            >= st[g].segments.len() && forall|t: int|
            0 <= t < st[g].segments.len() ==> #[trigger] st2[g].segments[t] == st[g].segments[t]
}

/// What holds of the groups after taking the first `k` rows of `sel`.
pub open spec fn groups_inv(
    rows: Seq<SponsorTime>,
    levels: Seq<Vec<u8>>,
    sel: Seq<usize>,
    st: Seq<Group>,
    k: int,
) -> bool {
    &&& forall|g: int| 0 <= g < st.len() ==> (#[trigger] st[g]).segments.len() > 0
    &&& forall|g1: int, g2: int|
        0 <= g1 < st.len() && 0 <= g2 < st.len() && g1 != g2 ==> hash_of(
            rows,
            (#[trigger] st[g1]).first as int,
        ) != hash_of(rows, (#[trigger] st[g2]).first as int)
    &&& forall|g: int, t: int|
        0 <= g < st.len() && 0 <= t < st[g].segments.len() ==> hash_of(
            rows,
            #[trigger] st[g].segments[t] as int,
        ) == hash_of(rows, st[g].first as int)
    &&& forall|g: int| 0 <= g < st.len() ==> sel.take(k).contains((#[trigger] st[g]).first)
    &&& forall|g: int, t: int|
        0 <= g < st.len() && 0 <= t < st[g].segments.len() ==> sel.contains(
            #[trigger] st[g].segments[t],
        )
    &&& forall|j: int| 0 <= j < k ==> covered(rows, levels, st, #[trigger] sel[j] as int)
}

/// Extending the groups keeps a row answered.
proof fn lemma_extends_covered(
    rows: Seq<SponsorTime>,
    levels: Seq<Vec<u8>>,
    st: Seq<Group>,
    st2: Seq<Group>,
    r: int,
)
    requires
        extends(st, st2),
        covered(rows, levels, st, r),
    ensures
        covered(rows, levels, st2, r),
{
    let (g, t) = choose|g: int, t: int|
        0 <= g < st.len() && 0 <= t < st[g].segments.len() && hash_of(rows, st[g].first as int)
            == hash_of(rows, r) && (#[trigger] st[g].segments[t] == r || overlaps(
            rows,
            levels,
            r,
            st[g].segments[t] as int,
        ));
    assert(st2[g].segments[t] == st[g].segments[t]);
}

/// No group of `f` has the hash `h` where the search finds none.
proof fn lemma_group_index_absent(rows: Seq<SponsorTime>, f: Seq<usize>, h: Seq<char>)
    requires
        group_index(rows, f, h) == -1,
    ensures
        forall|i: int| 0 <= i < f.len() ==> hash_of(rows, #[trigger] f[i] as int) != h,
    decreases f.len(),
{
    if f.len() > 0 {
        let i0 = group_index(rows, f.drop_last(), h);
        if i0 >= 0 {
        } else {
            lemma_group_index_absent(rows, f.drop_last(), h);
            assert forall|i: int| 0 <= i < f.len() implies hash_of(rows, #[trigger] f[i] as int) != h by {
                if i < f.len() - 1 {
                    assert(f[i] == f.drop_last()[i]);
                }
            }
        }
    }
}

/// Every similar row is a row of `sel` similar to `r`.
proof fn lemma_similar_members(
    rows: Seq<SponsorTime>,
    levels: Seq<Vec<u8>>,
    sel: Seq<usize>,
    r: int,
    k: int,
)
    requires
        0 <= k <= sel.len(),
    ensures
        forall|t: int|
            0 <= t < similar(rows, levels, sel, r, k).len() ==> sel.contains(
                #[trigger] similar(rows, levels, sel, r, k)[t],
            ) && similar_to(rows, levels, r, similar(rows, levels, sel, r, k)[t] as int),
    decreases k,
{
    if k > 0 {
        lemma_similar_members(rows, levels, sel, r, k - 1);
        let prev = similar(rows, levels, sel, r, k - 1);
        let cur = similar(rows, levels, sel, r, k);
        assert forall|t: int| 0 <= t < cur.len() implies sel.contains(#[trigger] cur[t])
            && similar_to(rows, levels, r, cur[t] as int) by {
            if t < prev.len() {
                assert(cur[t] == prev[t]);
            } else {
                assert(cur[t] == sel[k - 1]);
            }
        }
    }
}

/// Taking a row never loses a group or a segment.
pub proof fn lemma_step_extends(
    rows: Seq<SponsorTime>,
    levels: Seq<Vec<u8>>,
    sel: Seq<usize>,
    st: Seq<Group>,
    r: usize,
)
    ensures
        extends(st, step(rows, levels, sel, st, r)),
{
    let st2 = step(rows, levels, sel, st, r);
    let h = hash_of(rows, r as int);
    let gi = group_index(rows, firsts(st), h);
    lemma_group_index_range(rows, firsts(st), h);
    let st1 = if gi < 0 {
        st.push(Group { first: r, segments: seq![] })
    } else {
        st
    };
    let g0 = if gi < 0 {
        st.len() as int
    } else {
        gi
    };
    let segs = st1[g0].segments;
    assert(extends(st, st1)) by {
        assert forall|g: int| 0 <= g < st.len() implies (#[trigger] st1[g]).first == st[g].first
            && st1[g].segments.len() >= st[g].segments.len() && forall|t: int|
            0 <= t < st[g].segments.len() ==> #[trigger] st1[g].segments[t] == st[g].segments[t] by {
            assert(st1[g] == st[g]);
        }
    }
    assert(0 <= g0 < st1.len());
    if st2 != st1 {
        let best = best_of(rows, candidates(rows, levels, sel, r as int));
        assert(st2 == st1.update(g0, Group { first: st1[g0].first, segments: segs.push(best) }));
        assert forall|g: int| 0 <= g < st.len() implies (#[trigger] st2[g]).first == st[g].first
            && st2[g].segments.len() >= st[g].segments.len() && forall|t: int|
            0 <= t < st[g].segments.len() ==> #[trigger] st2[g].segments[t] == st[g].segments[t] by {
            if g == g0 {
                assert forall|t: int| 0 <= t < st[g].segments.len() implies #[trigger] st2[g].segments[t]
                    == st[g].segments[t] by {
                    assert(st1[g] == st[g]);
                    assert(st2[g].segments == segs.push(best));
                }
            } else {
                assert(st2[g] == st1[g]);
                assert(st1[g] == st[g]);
            }
        }
    }
}

/// Taking row `sel[k]` keeps [`groups_inv`].
proof fn lemma_step_inv(
    rows: Seq<SponsorTime>,
    levels: Seq<Vec<u8>>,
    sel: Seq<usize>,
    k: int,
)
    requires
        0 <= k < sel.len(),
        uuids_distinct(rows),
        forall|t: int| 0 <= t < sel.len() ==> #[trigger] sel[t] < rows.len(),
        groups_inv(rows, levels, sel, grouped(rows, levels, sel, k), k),
    ensures
        groups_inv(rows, levels, sel, grouped(rows, levels, sel, k + 1), k + 1),
{
    let st = grouped(rows, levels, sel, k);
    let r = sel[k];
    let st2 = grouped(rows, levels, sel, k + 1);
    assert(st2 == step(rows, levels, sel, st, r));
    let h = hash_of(rows, r as int);
    let gi = group_index(rows, firsts(st), h);
    lemma_group_index_range(rows, firsts(st), h);
    if gi < 0 {
        lemma_group_index_absent(rows, firsts(st), h);
        assert forall|g: int| 0 <= g < st.len() implies hash_of(rows, st[g].first as int) != h by {
            assert(firsts(st)[g] == st[g].first);
        }
    } else {
        assert(firsts(st)[gi] == st[gi].first);
    }
    let st1 = if gi < 0 {
        st.push(Group { first: r, segments: seq![] })
    } else {
        st
    };
    let g = if gi < 0 {
        st.len() as int
    } else {
        gi
    };
    let segs = st1[g].segments;
    assert(hash_of(rows, st1[g].first as int) == h);
    assert(sel.take(k + 1).contains(r)) by {
        assert(sel.take(k + 1)[k] == r);
    }
    assert forall|g2: int| 0 <= g2 < st.len() implies sel.take(k + 1).contains(
        (#[trigger] st[g2]).first,
    ) by {
        assert(sel.take(k).contains(st[g2].first));
        let i = choose|i: int| 0 <= i < k && sel.take(k)[i] == st[g2].first;
        assert(sel.take(k + 1)[i] == st[g2].first);
    }
    lemma_step_extends(rows, levels, sel, st, r);
    assert forall|j: int| 0 <= j < k implies covered(rows, levels, st2, #[trigger] sel[j] as int) by {
        lemma_extends_covered(rows, levels, st, st2, sel[j] as int);
    }
    let c = candidates(rows, levels, sel, r as int);
    let sim = similar(rows, levels, sel, r as int, sel.len() as int);
    if overlaps_any(rows, levels, r as int, segs) {
        let t = choose|t: int| 0 <= t < segs.len() && overlaps(rows, levels, r as int, #[trigger] segs[t] as int);
        assert(st2 == st1);
        assert(st2[g].segments[t] == segs[t]);
        assert(covered(rows, levels, st2, r as int));
    } else {
        let best = best_of(rows, c);
        let m = lemma_best_of_first_max(rows, c);
        lemma_similar_members(rows, levels, sel, r as int, sel.len() as int);
        if m < sim.len() {
            assert(c[m] == sim[m]);
            assert(sel.contains(best) && similar_to(rows, levels, r as int, best as int));
        } else {
            assert(best == r);
            assert(sel.contains(best)) by {
                assert(sel[k] == r);
            }
        }
        let ib = choose|i: int| 0 <= i < sel.len() && sel[i] == best;
        assert(best < rows.len());
        if holds_same(rows, segs, best as int) {
            let t = choose|t: int| 0 <= t < segs.len() && same_segment(rows, #[trigger] segs[t] as int, best as int);
            assert(st2 == st1);
            assert(segs.len() > 0);
            assert(gi >= 0);
            let ig = choose|g3: int, t3: int| 0 <= g3 < st.len() && 0 <= t3 < st[g3].segments.len() && #[trigger] st[g3].segments[t3] == segs[t];
            assert(sel.contains(segs[t]));
            let is = choose|i: int| 0 <= i < sel.len() && sel[i] == segs[t];
            assert(segs[t] < rows.len());
            assert(rows[segs[t] as int].uuid@ == rows[best as int].uuid@);
            assert(segs[t] == best);
            assert(st2[g].segments[t] == segs[t]);
            assert(covered(rows, levels, st2, r as int));
        } else {
            assert(st2 == st1.update(g, Group { first: st1[g].first, segments: segs.push(best) }));
            assert(st2[g].segments[segs.len() as int] == best);
            assert(covered(rows, levels, st2, r as int));
        }
    }
    assert(forall|j: int| 0 <= j < k + 1 ==> covered(rows, levels, st2, #[trigger] sel[j] as int));
}

/// [`groups_inv`] holds after every prefix of the rows.
proof fn lemma_grouped_inv(rows: Seq<SponsorTime>, levels: Seq<Vec<u8>>, sel: Seq<usize>, k: int)
    requires
        0 <= k <= sel.len(),
        uuids_distinct(rows),
        forall|t: int| 0 <= t < sel.len() ==> #[trigger] sel[t] < rows.len(),
    ensures
        groups_inv(rows, levels, sel, grouped(rows, levels, sel, k), k),
    decreases k,
{
    if k > 0 {
        lemma_grouped_inv(rows, levels, sel, k - 1);
        lemma_step_inv(rows, levels, sel, k - 1);
    }
}

/// Properties of the video groups that a search builds, for rows whose UUIDs are
/// distinct (the table's primary key):
/// every group holds at least one segment; no two groups are for the same
/// hashed video id; every segment of a group is a selected row of the
/// group's video; every group was opened by a selected row; every selected
/// row is answered by the group of its video, which holds the row's own
/// segment or a segment that the row's segment overlaps; and there are groups
/// exactly when some row is selected.
pub proof fn lemma_search_groups(rows: Seq<SponsorTime>, levels: Seq<Vec<u8>>, query: SegmentQuery)
    requires
        uuids_distinct(rows),
    ensures
        ({
            let sel = selected(rows, query, rows.len() as int);
            let st = search_groups(rows, levels, query);
            &&& forall|g: int| 0 <= g < st.len() ==> (#[trigger] st[g]).segments.len() > 0
            &&& forall|g1: int, g2: int|
                0 <= g1 < st.len() && 0 <= g2 < st.len() && g1 != g2 ==> hash_of(
                    rows,
                    (#[trigger] st[g1]).first as int,
                ) != hash_of(rows, (#[trigger] st[g2]).first as int)
            &&& forall|g: int, t: int|
                0 <= g < st.len() && 0 <= t < st[g].segments.len() ==> hash_of(
                    rows,
                    #[trigger] st[g].segments[t] as int,
                ) == hash_of(rows, st[g].first as int) && sel.contains(st[g].segments[t])
            &&& forall|g: int| 0 <= g < st.len() ==> sel.contains((#[trigger] st[g]).first)
            &&& forall|j: int| 0 <= j < sel.len() ==> covered(rows, levels, st, #[trigger] sel[j] as int)
            &&& (st.len() == 0 <==> sel.len() == 0)
        }),
{
    let sel = selected(rows, query, rows.len() as int);
    let st = search_groups(rows, levels, query);
    lemma_selected_bounded(rows, query, rows.len() as int);
    lemma_grouped_inv(rows, levels, sel, sel.len() as int);
    assert(sel.take(sel.len() as int) =~= sel);
    if sel.len() > 0 {
        assert(covered(rows, levels, st, sel[0] as int));
    }
}

/// Every selected row is answered: for rows with distinct UUIDs, an answer
/// that answers the search's groups holds, under the row's hashed video id,
/// the row's own segment or a segment that the row's segment overlaps.
pub proof fn lemma_answer_covers_selected(
    rows: Seq<SponsorTime>,
    levels: Seq<Vec<u8>>,
    query: SegmentQuery,
    answer: Seq<Sponsor>,
    r: usize,
)
    requires
        uuids_distinct(rows),
        answer.len() == search_groups(rows, levels, query).len(),
        forall|i: int|
            0 <= i < answer.len() ==> answers_group(
                rows,
                #[trigger] answer[i],
                search_groups(rows, levels, query)[i],
            ),
        r < rows.len(),
        row_selected(rows[r as int], query),
    ensures
        exists|i: int, k: int|
            0 <= i < answer.len() && 0 <= k < answer[i].segments@.len() && answer[i].hash@
                == rows[r as int].hashed_video_id@ && ((#[trigger] answer[i].segments@[k]).row == r
                || overlaps(rows, levels, r as int, answer[i].segments@[k].row as int)),
{
    let sel = selected(rows, query, rows.len() as int);
    let st = search_groups(rows, levels, query);
    lemma_search_groups(rows, levels, query);
    lemma_selected_contains(rows, query, rows.len() as int, r);
    let j = choose|j: int| 0 <= j < sel.len() && sel[j] == r;
    assert(covered(rows, levels, st, sel[j] as int));
    assert(covered(rows, levels, st, r as int));
    let (g, t) = choose|g: int, t: int|
        0 <= g < st.len() && 0 <= t < st[g].segments.len() && hash_of(rows, st[g].first as int)
            == hash_of(rows, r as int) && (#[trigger] st[g].segments[t] == r as int || overlaps(
            rows,
            levels,
            r as int,
            st[g].segments[t] as int,
        ));
    let x = st[g].segments[t];
    assert(answers_group(rows, answer[g], st[g]));
    assert(0 <= t < st[g].segments.len() && st[g].segments[t] == x);
    assert(st[g].segments.contains(x));
    let k = choose|k: int| 0 <= k < answer[g].segments@.len() && (#[trigger] answer[g].segments@[k]).row == x;
}

/// What an answer holds, for rows with distinct UUIDs: no two sponsors are
/// for the same hashed video id, every sponsor has at least one segment,
/// every answered segment is taken from a selected row of its sponsor's
/// video, and the answer is empty exactly when no row is selected.
pub proof fn lemma_answer_sound(
    rows: Seq<SponsorTime>,
    levels: Seq<Vec<u8>>,
    query: SegmentQuery,
    answer: Seq<Sponsor>,
)
    requires
        uuids_distinct(rows),
        answer.len() == search_groups(rows, levels, query).len(),
        forall|i: int|
            0 <= i < answer.len() ==> answers_group(
                rows,
                #[trigger] answer[i],
                search_groups(rows, levels, query)[i],
            ),
    ensures
        forall|i: int, j: int|
            0 <= i < answer.len() && 0 <= j < answer.len() && i != j ==> (#[trigger] answer[i]).hash@
                != (#[trigger] answer[j]).hash@,
        forall|i: int| 0 <= i < answer.len() ==> (#[trigger] answer[i]).segments@.len() > 0,
        forall|i: int, k: int|
            0 <= i < answer.len() && 0 <= k < answer[i].segments@.len() ==> selected(
                rows,
                query,
                rows.len() as int,
            ).contains((#[trigger] answer[i].segments@[k]).row) && rows[answer[i].segments@[k].row as int].hashed_video_id@
                == answer[i].hash@,
        answer.len() == 0 <==> selected(rows, query, rows.len() as int).len() == 0,
{
    let st = search_groups(rows, levels, query);
    lemma_search_groups(rows, levels, query);
    assert forall|i: int, j: int|
        0 <= i < answer.len() && 0 <= j < answer.len() && i != j implies (#[trigger] answer[i]).hash@
            != (#[trigger] answer[j]).hash@ by {
        assert(answers_group(rows, answer[i], st[i]));
        assert(answers_group(rows, answer[j], st[j]));
    }
    assert forall|i: int| 0 <= i < answer.len() implies (#[trigger] answer[i]).segments@.len() > 0 by {
        assert(answers_group(rows, answer[i], st[i]));
    }
    assert forall|i: int, k: int|
        0 <= i < answer.len() && 0 <= k < answer[i].segments@.len() implies selected(
            rows,
            query,
            rows.len() as int,
        ).contains((#[trigger] answer[i].segments@[k]).row) && rows[answer[i].segments@[k].row as int].hashed_video_id@
            == answer[i].hash@ by {
        assert(answers_group(rows, answer[i], st[i]));
        let x = answer[i].segments@[k].row;
        assert(st[i].segments.contains(x));
        let t = choose|t: int| 0 <= t < st[i].segments.len() && st[i].segments[t] == x;
        assert(st[i].segments[t] == x);
    }
}

/// Every selected index is a selected row.
proof fn lemma_selected_rows(rows: Seq<SponsorTime>, query: SegmentQuery, n: int)
    requires
        n <= usize::MAX + 1,
    ensures
        forall|t: int|
            0 <= t < selected(rows, query, n).len() ==> row_selected(
                rows[#[trigger] selected(rows, query, n)[t] as int],
                query,
            ),
    decreases n,
{
    if n > 0 {
        lemma_selected_rows(rows, query, n - 1);
        let prev = selected(rows, query, n - 1);
        assert forall|t: int| 0 <= t < selected(rows, query, n).len() implies row_selected(
            rows[#[trigger] selected(rows, query, n)[t] as int],
            query,
        ) by {
            if t < prev.len() {
                assert(selected(rows, query, n)[t] == prev[t]);
            } else {
                assert(selected(rows, query, n)[t] == (n - 1) as usize);
                assert(row_selected(rows[n - 1], query));
            }
        }
    }
}

/// An answer holds only what was asked for: for a hash prefix, only videos
/// whose hashed id starts with it; for a video id, only that video; and only
/// segments of the asked categories.
pub proof fn lemma_answer_matches_query(
    rows: Seq<SponsorTime>,
    levels: Seq<Vec<u8>>,
    query: SegmentQuery,
    answer: Seq<Sponsor>,
)
    requires
        uuids_distinct(rows),
        rows.len() <= usize::MAX,
        answer.len() == search_groups(rows, levels, query).len(),
        forall|i: int|
            0 <= i < answer.len() ==> answers_group(
                rows,
                #[trigger] answer[i],
                search_groups(rows, levels, query)[i],
            ),
    ensures
        forall|i: int|
            0 <= i < answer.len() ==> match query.name {
                VideoName::ByHashPrefix(p) => p@.is_prefix_of((#[trigger] answer[i]).hash@),
                VideoName::ByID(id) => (#[trigger] answer[i]).video_id@ == id@,
            },
        forall|i: int, k: int|
            0 <= i < answer.len() && 0 <= k < answer[i].segments@.len() ==> texts(
                query.categories@,
            ).contains((#[trigger] answer[i].segments@[k]).category@),
{
    let sel = selected(rows, query, rows.len() as int);
    let st = search_groups(rows, levels, query);
    lemma_search_groups(rows, levels, query);
    lemma_selected_rows(rows, query, rows.len() as int);
    assert forall|i: int| 0 <= i < answer.len() implies match query.name {
        VideoName::ByHashPrefix(p) => p@.is_prefix_of((#[trigger] answer[i]).hash@),
        VideoName::ByID(id) => (#[trigger] answer[i]).video_id@ == id@,
    } by {
        assert(answers_group(rows, answer[i], st[i]));
        assert(sel.contains(st[i].first));
        let t = choose|t: int| 0 <= t < sel.len() && sel[t] == st[i].first;
        assert(row_selected(rows[sel[t] as int], query));
    }
    assert forall|i: int, k: int|
        0 <= i < answer.len() && 0 <= k < answer[i].segments@.len() implies texts(
            query.categories@,
        ).contains((#[trigger] answer[i].segments@[k]).category@) by {
        assert(answers_group(rows, answer[i], st[i]));
        let x = answer[i].segments@[k].row;
        assert(answer[i].segments@[k] == crate::model::segment_of(rows, x as int));
        assert(st[i].segments.contains(x));
        let u = choose|u: int| 0 <= u < st[i].segments.len() && st[i].segments[u] == x;
        assert(sel.contains(st[i].segments[u]));
        let t = choose|t: int| 0 <= t < sel.len() && sel[t] == x;
        assert(row_selected(rows[sel[t] as int], query));
    }
}

/// Two searches whose names and categories read the same select the same
/// rows.
proof fn lemma_selected_same(rows: Seq<SponsorTime>, q1: SegmentQuery, q2: SegmentQuery, n: int)
    requires
        name_view(q1.name) == name_view(q2.name),
        texts(q1.categories@) == texts(q2.categories@),
    ensures
        selected(rows, q1, n) == selected(rows, q2, n),
    decreases n,
{
    if n > 0 {
        lemma_selected_same(rows, q1, q2, n - 1);
        assert(row_selected(rows[n - 1], q1) == row_selected(rows[n - 1], q2));
    }
}

/// A search depends on its video name and categories only through their
/// texts: two searches that read the same build the same groups, so
/// [`crate::skip::find_skip_segments`] answers them alike.
pub proof fn lemma_search_same_request(
    rows: Seq<SponsorTime>,
    levels: Seq<Vec<u8>>,
    q1: SegmentQuery,
    q2: SegmentQuery,
)
    requires
        name_view(q1.name) == name_view(q2.name),
        texts(q1.categories@) == texts(q2.categories@),
    ensures
        search_groups(rows, levels, q1) == search_groups(rows, levels, q2),
        q1.categories@.len() == q2.categories@.len(),
{
    lemma_selected_same(rows, q1, q2, rows.len() as int);
    assert(texts(q1.categories@).len() == q1.categories@.len());
    assert(texts(q2.categories@).len() == q2.categories@.len());
}

/// Row `r` has numbers for its times and its duration (no NaN).
pub open spec fn row_has_numbers(row: SponsorTime) -> bool {
    row.start_time is Some && row.end_time is Some && row.video_duration is Some
}

/// A row with numbers gives a segment equal to itself.
proof fn lemma_same_segment_reflexive(rows: Seq<SponsorTime>, r: int)
    requires
        row_has_numbers(rows[r]),
    ensures
        same_segment(rows, r, r),
{
}

/// No group holds a row twice while the rows taken have numbers.
proof fn lemma_grouped_no_repeat(rows: Seq<SponsorTime>, levels: Seq<Vec<u8>>, sel: Seq<usize>, k: int)
    requires
        0 <= k <= sel.len(),
        forall|t: int| 0 <= t < sel.len() ==> row_has_numbers(rows[#[trigger] sel[t] as int]),
    ensures
        forall|g: int|
            0 <= g < grouped(rows, levels, sel, k).len() ==> no_repeats(
                #[trigger] grouped(rows, levels, sel, k)[g].segments,
            ),
    decreases k,
{
    if k > 0 {
        lemma_grouped_no_repeat(rows, levels, sel, k - 1);
        let st = grouped(rows, levels, sel, k - 1);
        let r = sel[k - 1];
        let st2 = grouped(rows, levels, sel, k);
        assert(st2 == step(rows, levels, sel, st, r));
        let h = hash_of(rows, r as int);
        let gi = group_index(rows, firsts(st), h);
        lemma_group_index_range(rows, firsts(st), h);
        let st1 = if gi < 0 {
            st.push(Group { first: r, segments: seq![] })
        } else {
            st
        };
        let g0 = if gi < 0 {
            st.len() as int
        } else {
            gi
        };
        let segs = st1[g0].segments;
        assert forall|g: int| 0 <= g < st1.len() implies no_repeats(#[trigger] st1[g].segments) by {
            if g < st.len() {
                assert(st1[g] == st[g]);
            }
        }
        if st2 != st1 {
            let c = candidates(rows, levels, sel, r as int);
            let best = best_of(rows, c);
            assert(!overlaps_any(rows, levels, r as int, segs));
            assert(!holds_same(rows, segs, best as int));
            assert(st2 == st1.update(g0, Group { first: st1[g0].first, segments: segs.push(best) }));
            let m = lemma_best_of_first_max(rows, c);
            let sim = similar(rows, levels, sel, r as int, sel.len() as int);
            lemma_similar_members(rows, levels, sel, r as int, sel.len() as int);
            if m < sim.len() {
                assert(c[m] == sim[m]);
                assert(sel.contains(best));
            } else {
                assert(sel[k - 1] == best);
            }
            let i = choose|i: int| 0 <= i < sel.len() && sel[i] == best;
            assert(row_has_numbers(rows[sel[i] as int]));
            lemma_same_segment_reflexive(rows, best as int);
            assert forall|t: int| 0 <= t < segs.len() implies segs[t] != best by {
                if segs[t] == best {
                    assert(same_segment(rows, segs[t] as int, best as int));
                }
            }
            let ns = segs.push(best);
            assert forall|a: int, b: int| 0 <= a < b < ns.len() implies #[trigger] ns[a] != #[trigger] ns[b] by {
                if b < segs.len() {
                    assert(ns[a] == segs[a] && ns[b] == segs[b]);
                } else {
                    assert(ns[a] == segs[a]);
                }
            }
            assert forall|g: int| 0 <= g < st2.len() implies no_repeats(#[trigger] st2[g].segments) by {
                if g != g0 {
                    assert(st2[g] == st1[g]);
                } else {
                    assert(st2[g].segments == ns);
                }
            }
        }
    }
}

/// A search fails with [`crate::skip::SegmentError::Unorderable`] only for a
/// NaN number: where every selected row has numbers for its times and
/// duration, no group holds a row twice.
pub proof fn lemma_numbers_never_unorderable(
    rows: Seq<SponsorTime>,
    levels: Seq<Vec<u8>>,
    query: SegmentQuery,
)
    requires
        rows.len() <= usize::MAX,
        forall|r: int|
            0 <= r < rows.len() && row_selected(#[trigger] rows[r], query) ==> row_has_numbers(rows[r]),
    ensures
        !group_has_repeat(search_groups(rows, levels, query)),
{
    let sel = selected(rows, query, rows.len() as int);
    lemma_selected_rows(rows, query, rows.len() as int);
    lemma_selected_bounded(rows, query, rows.len() as int);
    assert forall|t: int| 0 <= t < sel.len() implies row_has_numbers(rows[#[trigger] sel[t] as int]) by {
        assert(row_selected(rows[sel[t] as int], query));
    }
    lemma_grouped_no_repeat(rows, levels, sel, sel.len() as int);
}

/// Some segment of `s` is taken from row `x`.
pub open spec fn holds_row(s: Seq<Segment>, x: usize) -> bool {
    exists|k: int| 0 <= k < s.len() && (#[trigger] s[k]).row == x
}

/// Two lists of segments, each taken from rows, in strictly increasing UUID
/// order and holding the same rows, are the same list.
proof fn lemma_sorted_segments_unique(rows: Seq<SponsorTime>, a: Seq<Segment>, b: Seq<Segment>)
    requires
        a.len() == b.len(),
        forall|k: int| 0 <= k < a.len() ==> #[trigger] a[k] == segment_of(rows, a[k].row as int),
        forall|k: int| 0 <= k < b.len() ==> #[trigger] b[k] == segment_of(rows, b[k].row as int),
        forall|i: int, j: int| 0 <= i < j < a.len() ==> lex_lt((#[trigger] a[i]).uuid@, (#[trigger] a[j]).uuid@),
        forall|i: int, j: int| 0 <= i < j < b.len() ==> lex_lt((#[trigger] b[i]).uuid@, (#[trigger] b[j]).uuid@),
        forall|x: usize| #[trigger] holds_row(a, x) <==> holds_row(b, x),
    ensures
        a == b,
    decreases a.len(),
{
    if a.len() == 0 {
        assert(a =~= b);
    } else {
        let x0 = a[0].row;
        assert(a[0].row == x0);
        assert(holds_row(a, x0));
        assert(holds_row(b, x0));
        let j = choose|k: int| 0 <= k < b.len() && (#[trigger] b[k]).row == x0;
        let y0 = b[0].row;
        assert(b[0].row == y0);
        assert(holds_row(b, y0));
        assert(holds_row(a, y0));
        let i = choose|k: int| 0 <= k < a.len() && (#[trigger] a[k]).row == y0;
        assert(b[j] == a[0]);
        assert(a[i] == b[0]);
        if i > 0 && j > 0 {
            assert(lex_lt(a[0].uuid@, a[i].uuid@));
            assert(lex_lt(b[0].uuid@, b[j].uuid@));
            lemma_lex_transitive(a[0].uuid@, b[0].uuid@, a[0].uuid@);
            lemma_lex_irreflexive(a[0].uuid@);
        }
        assert(a[0] == b[0]);
        let a1 = a.drop_first();
        let b1 = b.drop_first();
        assert forall|x: usize| #[trigger] holds_row(a1, x) <==> holds_row(b1, x) by {
            if holds_row(a1, x) {
                let k = choose|k: int| 0 <= k < a1.len() && (#[trigger] a1[k]).row == x;
                assert(a[k + 1].row == x);
                assert(holds_row(a, x));
                let m = choose|m: int| 0 <= m < b.len() && (#[trigger] b[m]).row == x;
                if m == 0 {
                    assert(a[k + 1] == a[0]);
                    assert(lex_lt(a[0].uuid@, a[k + 1].uuid@));
                    lemma_lex_irreflexive(a[0].uuid@);
                }
                assert(b1[m - 1].row == x);
            }
            if holds_row(b1, x) {
                let k = choose|k: int| 0 <= k < b1.len() && (#[trigger] b1[k]).row == x;
                assert(b[k + 1].row == x);
                assert(holds_row(b, x));
                assert(holds_row(a, x));
                let m = choose|m: int| 0 <= m < a.len() && (#[trigger] a[m]).row == x;
                if m == 0 {
                    assert(a[m].row == x);
                    assert(b[0].row == x);
                    assert(b[0] == segment_of(rows, b[0].row as int));
                    assert(b[k + 1] == segment_of(rows, b[k + 1].row as int));
                    assert(b[k + 1] == b[0]);
                    assert(lex_lt(b[0].uuid@, b[k + 1].uuid@));
                    lemma_lex_irreflexive(b[0].uuid@);
                }
                assert(a1[m - 1].row == x);
            }
        }
        assert forall|i2: int, j2: int| 0 <= i2 < j2 < a1.len() implies lex_lt((#[trigger] a1[i2]).uuid@, (#[trigger] a1[j2]).uuid@) by {
            assert(a1[i2] == a[i2 + 1] && a1[j2] == a[j2 + 1]);
        }
        assert forall|i2: int, j2: int| 0 <= i2 < j2 < b1.len() implies lex_lt((#[trigger] b1[i2]).uuid@, (#[trigger] b1[j2]).uuid@) by {
            assert(b1[i2] == b[i2 + 1] && b1[j2] == b[j2 + 1]);
        }
        assert forall|k: int| 0 <= k < a1.len() implies #[trigger] a1[k] == segment_of(rows, a1[k].row as int) by {
            assert(a1[k] == a[k + 1]);
        }
        assert forall|k: int| 0 <= k < b1.len() implies #[trigger] b1[k] == segment_of(rows, b1[k].row as int) by {
            assert(b1[k] == b[k + 1]);
        }
        lemma_sorted_segments_unique(rows, a1, b1);
        assert(a =~= b) by {
            assert forall|k: int| 0 <= k < a.len() implies a[k] == b[k] by {
                if k > 0 {
                    assert(a[k] == a1[k - 1] && b[k] == b1[k - 1]);
                }
            }
        }
    }
}

/// `answer` answers the search `query` on `rows`: one sponsor per group, in
/// order, each answering its group.
pub open spec fn answers_search(
    rows: Seq<SponsorTime>,
    levels: Seq<Vec<u8>>,
    query: SegmentQuery,
    answer: Seq<Sponsor>,
) -> bool {
    &&& answer.len() == search_groups(rows, levels, query).len()
    &&& forall|i: int|
        0 <= i < answer.len() ==> answers_group(
            rows,
            #[trigger] answer[i],
            search_groups(rows, levels, query)[i],
        )
}

/// Two answers are alike: the same sponsors, in order, with the same hash
/// and video id texts and the same segments.
pub open spec fn same_answer(a1: Seq<Sponsor>, a2: Seq<Sponsor>) -> bool {
    &&& a1.len() == a2.len()
    &&& forall|i: int|
        0 <= i < a1.len() ==> (#[trigger] a1[i]).hash@ == a2[i].hash@ && a1[i].video_id@
            == a2[i].video_id@ && a1[i].segments@ == a2[i].segments@
}

/// Searches that read the same get alike answers: where two searches have
/// the same video name and category texts (as a request without categories
/// and one with `["sponsor"]` have, by
/// [`crate::request::lemma_default_categories`]), they build the same groups,
/// so [`crate::skip::find_skip_segments`] fails for both or for neither,
/// finds nothing for both or for neither, and otherwise gives alike answers.
pub proof fn lemma_same_request_same_answer(
    rows: Seq<SponsorTime>,
    levels: Seq<Vec<u8>>,
    q1: SegmentQuery,
    q2: SegmentQuery,
    a1: Seq<Sponsor>,
    a2: Seq<Sponsor>,
)
    requires
        search_view(Lookup::Query(q1)) == search_view(Lookup::Query(q2)),
        uuids_distinct(rows),
        answers_search(rows, levels, q1, a1),
        answers_search(rows, levels, q2, a2),
    ensures
        search_groups(rows, levels, q1) == search_groups(rows, levels, q2),
        q1.categories@.len() == q2.categories@.len(),
        same_answer(a1, a2),
{
    assert(name_view(q1.name) == name_view(q2.name));
    assert(texts(q1.categories@) == texts(q2.categories@));
    lemma_search_same_request(rows, levels, q1, q2);
    let st = search_groups(rows, levels, q1);
    assert forall|i: int| 0 <= i < a1.len() implies (#[trigger] a1[i]).hash@ == a2[i].hash@
        && a1[i].video_id@ == a2[i].video_id@ && a1[i].segments@ == a2[i].segments@ by {
        assert(answers_group(rows, a1[i], st[i]));
        assert(answers_group(rows, a2[i], st[i]));
        let s1 = a1[i].segments@;
        let s2 = a2[i].segments@;
        assert forall|x: usize| #[trigger] holds_row(s1, x) <==> holds_row(s2, x) by {
            assert(st[i].segments.contains(x) <==> holds_row(s1, x));
            assert(st[i].segments.contains(x) <==> holds_row(s2, x));
        }
        lemma_sorted_segments_unique(rows, s1, s2);
    }
}

/// A selected row is among the selected indices.
proof fn lemma_selected_contains(rows: Seq<SponsorTime>, query: SegmentQuery, n: int, r: usize)
    requires
        r < n,
        row_selected(rows[r as int], query),
    ensures
        selected(rows, query, n).contains(r),
    decreases n,
{
    if r < n - 1 {
        lemma_selected_contains(rows, query, n - 1, r);
        let prev = selected(rows, query, n - 1);
        let i = choose|i: int| 0 <= i < prev.len() && prev[i] == r;
        assert(selected(rows, query, n)[i] == r);
    } else {
        let cur = selected(rows, query, n);
        assert(cur[cur.len() - 1] == r);
    }
}


/// When one submission overlaps another. Segments of different categories
/// never overlap; a segment lying strictly inside another of its category
/// overlaps it; otherwise the pair overlaps exactly when its overlap level
/// exceeds the threshold: 2 (ratio above 0.8) against a chapter, 1 (above
/// 0.6) between segments of the same action type, 0 (above 0.1) otherwise. In
/// particular a disjoint pair (level 0) without containment never overlaps,
/// whatever the action types, and a pair of the same category with level 3
/// always does.
pub proof fn lemma_overlap_rules(rows: Seq<SponsorTime>, levels: Seq<Vec<u8>>, i: int, j: int)
    ensures
        rows[i].category@ != rows[j].category@ ==> !overlaps(rows, levels, i, j),
        rows[i].category@ == rows[j].category@ && key_gt(rows[i].start_time, rows[j].start_time)
            && key_gt(rows[j].end_time, rows[i].end_time) ==> overlaps(rows, levels, i, j),
        rows[i].category@ == rows[j].category@ && !(key_gt(rows[i].start_time, rows[j].start_time)
            && key_gt(rows[j].end_time, rows[i].end_time)) ==> (overlaps(rows, levels, i, j) <==> (
        levels[i]@[j] as int) > (if rows[j].category@ == "chapter"@ {
            2int
        } else if rows[i].action_type@ == rows[j].action_type@ {
            1int
        } else {
            0int
        })),
        levels[i]@[j] == 0 && !(key_gt(rows[i].start_time, rows[j].start_time) && key_gt(
            rows[j].end_time,
            rows[i].end_time,
        )) ==> !overlaps(rows, levels, i, j),
        rows[i].category@ == rows[j].category@ && levels[i]@[j] >= 3 ==> overlaps(rows, levels, i, j),
        rows[i].category@ == rows[j].category@ && rows[j].category@ != "chapter"@
            && rows[i].action_type@ != rows[j].action_type@ && levels[i]@[j] >= 1 ==> overlaps(
            rows,
            levels,
            i,
            j,
        ),
{
}

/// The similar rows for `r` among the first `k` rows of `sel` are exactly
/// those of them with another UUID, the same hashed video id, and a segment
/// that the segment of `r` overlaps.
proof fn lemma_similar_exact(
    rows: Seq<SponsorTime>,
    levels: Seq<Vec<u8>>,
    sel: Seq<usize>,
    r: int,
    k: int,
)
    requires
        0 <= k <= sel.len(),
    ensures
        forall|t: int|
            0 <= t < k && rows[sel[t] as int].uuid@ != rows[r].uuid@
                && rows[sel[t] as int].hashed_video_id@ == rows[r].hashed_video_id@ && overlaps(
                rows,
                levels,
                r,
                sel[t] as int,
            ) ==> similar(rows, levels, sel, r, k).contains(#[trigger] sel[t]),
        forall|t: int|
            0 <= t < similar(rows, levels, sel, r, k).len() ==> {
                let j = #[trigger] similar(rows, levels, sel, r, k)[t];
                &&& sel.contains(j)
                &&& rows[j as int].uuid@ != rows[r].uuid@
                &&& rows[j as int].hashed_video_id@ == rows[r].hashed_video_id@
                &&& overlaps(rows, levels, r, j as int)
            },
    decreases k,
{
    if k > 0 {
        lemma_similar_exact(rows, levels, sel, r, k - 1);
        let prev = similar(rows, levels, sel, r, k - 1);
        let cur = similar(rows, levels, sel, r, k);
        assert forall|t: int|
            0 <= t < k && rows[sel[t] as int].uuid@ != rows[r].uuid@
                && rows[sel[t] as int].hashed_video_id@ == rows[r].hashed_video_id@ && overlaps(
                rows,
                levels,
                r,
                sel[t] as int,
            ) implies cur.contains(#[trigger] sel[t]) by {
            if t < k - 1 {
                assert(prev.contains(sel[t]));
                let u = choose|u: int| 0 <= u < prev.len() && prev[u] == sel[t];
                assert(cur[u] == prev[u]);
            } else {
                assert(similar_to(rows, levels, r, sel[k - 1] as int));
                assert(cur[cur.len() - 1] == sel[k - 1]);
            }
        }
        assert forall|t: int| 0 <= t < cur.len() implies {
            let j = #[trigger] cur[t];
            &&& sel.contains(j)
            &&& rows[j as int].uuid@ != rows[r].uuid@
            &&& rows[j as int].hashed_video_id@ == rows[r].hashed_video_id@
            &&& overlaps(rows, levels, r, j as int)
        } by {
            if t < prev.len() {
                assert(cur[t] == prev[t]);
            } else {
                assert(cur[t] == sel[k - 1]);
            }
        }
    }
}

/// The candidates for a row `r` of `sel` and the one kept: every other
/// selected submission (another UUID) of the same hashed video that the
/// segment of `r` overlaps is a candidate, whatever its action type, and no
/// other row is one besides `r` itself; the kept row is a candidate with at
/// least the votes of `r` and of every such submission.
pub proof fn lemma_candidates_and_best(
    rows: Seq<SponsorTime>,
    levels: Seq<Vec<u8>>,
    sel: Seq<usize>,
    r: usize,
)
    ensures
        forall|j: usize|
            sel.contains(j) && rows[j as int].uuid@ != rows[r as int].uuid@
                && rows[j as int].hashed_video_id@ == rows[r as int].hashed_video_id@ && overlaps(
                rows,
                levels,
                r as int,
                j as int,
            ) ==> #[trigger] candidates(rows, levels, sel, r as int).contains(j),
        forall|j: usize|
            #[trigger] candidates(rows, levels, sel, r as int).contains(j) ==> j == r || (sel.contains(j)
                && rows[j as int].uuid@ != rows[r as int].uuid@ && rows[j as int].hashed_video_id@
                == rows[r as int].hashed_video_id@ && overlaps(rows, levels, r as int, j as int)),
        candidates(rows, levels, sel, r as int).contains(best_of(rows, candidates(rows, levels, sel, r as int))),
        rows[best_of(rows, candidates(rows, levels, sel, r as int)) as int].votes >= rows[r as int].votes,
        forall|j: usize|
            sel.contains(j) && rows[j as int].uuid@ != rows[r as int].uuid@
                && rows[j as int].hashed_video_id@ == rows[r as int].hashed_video_id@ && overlaps(
                rows,
                levels,
                r as int,
                j as int,
            ) ==> rows[best_of(rows, candidates(rows, levels, sel, r as int)) as int].votes
                >= #[trigger] rows[j as int].votes,
{
    let n = sel.len() as int;
    let sim = similar(rows, levels, sel, r as int, n);
    let c = candidates(rows, levels, sel, r as int);
    lemma_similar_exact(rows, levels, sel, r as int, n);
    let m = lemma_best_of_first_max(rows, c);
    let b = best_of(rows, c);
    assert(c[c.len() - 1] == r);
    assert forall|j: usize|
        sel.contains(j) && rows[j as int].uuid@ != rows[r as int].uuid@
            && rows[j as int].hashed_video_id@ == rows[r as int].hashed_video_id@ && overlaps(
            rows,
            levels,
            r as int,
            j as int,
        ) implies #[trigger] c.contains(j) && rows[b as int].votes >= rows[j as int].votes by {
        let t = choose|t: int| 0 <= t < sel.len() && sel[t] == j;
        assert(sim.contains(sel[t]));
        let u = choose|u: int| 0 <= u < sim.len() && sim[u] == j;
        assert(c[u] == j);
    }
    assert forall|j: usize|
        sel.contains(j) && rows[j as int].uuid@ != rows[r as int].uuid@
            && rows[j as int].hashed_video_id@ == rows[r as int].hashed_video_id@ && overlaps(
            rows,
            levels,
            r as int,
            j as int,
        ) implies rows[b as int].votes >= #[trigger] rows[j as int].votes by {
        assert(c.contains(j));
        let u = choose|u: int| 0 <= u < c.len() && c[u] == j;
        assert(rows[c[u] as int].votes <= rows[c[m] as int].votes);
    }
    assert forall|j: usize| #[trigger] c.contains(j) implies j == r || (sel.contains(j)
        && rows[j as int].uuid@ != rows[r as int].uuid@ && rows[j as int].hashed_video_id@
        == rows[r as int].hashed_video_id@ && overlaps(rows, levels, r as int, j as int)) by {
        let u = choose|u: int| 0 <= u < c.len() && c[u] == j;
        if u < sim.len() {
            assert(c[u] == sim[u]);
        }
    }
    assert(c[m] == b);
}

/// Every answered segment carries the columns of the row it was taken
/// from, field by field: UUID, action type, category, description, locked
/// flag, start and end, user, video duration and votes.
pub proof fn lemma_answer_fields(
    rows: Seq<SponsorTime>,
    levels: Seq<Vec<u8>>,
    query: SegmentQuery,
    answer: Seq<Sponsor>,
)
    requires
        answers_search(rows, levels, query, answer),
    ensures
        forall|i: int, k: int|
            0 <= i < answer.len() && 0 <= k < answer[i].segments@.len() ==> {
                let s = #[trigger] answer[i].segments@[k];
                let row = rows[s.row as int];
                &&& s.uuid@ == row.uuid@
                &&& s.action_type@ == row.action_type@
                &&& s.category@ == row.category@
                &&& s.description@ == row.description@
                &&& s.locked == row.locked
                &&& s.start == row.start_time
                &&& s.end == row.end_time
                &&& s.user_id@ == row.user_id@
                &&& s.video_duration == row.video_duration
                &&& s.votes == row.votes
            },
{
    let st = search_groups(rows, levels, query);
    assert forall|i: int, k: int| 0 <= i < answer.len() && 0 <= k < answer[i].segments@.len() implies {
        let s = #[trigger] answer[i].segments@[k];
        let row = rows[s.row as int];
        &&& s.uuid@ == row.uuid@
        &&& s.action_type@ == row.action_type@
        &&& s.category@ == row.category@
        &&& s.description@ == row.description@
        &&& s.locked == row.locked
        &&& s.start == row.start_time
        &&& s.end == row.end_time
        &&& s.user_id@ == row.user_id@
        &&& s.video_duration == row.video_duration
        &&& s.votes == row.votes
    } by {
        assert(answers_group(rows, answer[i], st[i]));
        assert(answer[i].segments@[k] == segment_of(rows, answer[i].segments@[k].row as int));
    }
}

/// Which rows a search selects: exactly the rows that are neither hidden nor
/// shadow hidden, have no negative vote total, are of one of the asked
/// categories, and belong to the asked video (hashed id starting with the
/// asked prefix, or the asked video id), whatever their other columns.
pub proof fn lemma_selection_rules(rows: Seq<SponsorTime>, query: SegmentQuery, r: usize)
    requires
        r < rows.len() <= usize::MAX,
    ensures
        selected(rows, query, rows.len() as int).contains(r) <==> {
            let row = rows[r as int];
            &&& row.shadow_hidden == 0
            &&& row.hidden == 0
            &&& row.votes >= 0
            &&& exists|c: int|
                0 <= c < query.categories@.len() && (#[trigger] query.categories@[c])@ == row.category@
            &&& match query.name {
                VideoName::ByHashPrefix(p) => p@.is_prefix_of(row.hashed_video_id@),
                VideoName::ByID(id) => row.video_id@ == id@,
            }
        },
{
    let row = rows[r as int];
    let sel = selected(rows, query, rows.len() as int);
    assert((exists|c: int|
        0 <= c < query.categories@.len() && (#[trigger] query.categories@[c])@ == row.category@)
        <==> texts(query.categories@).contains(row.category@)) by {
        if exists|c: int|
            0 <= c < query.categories@.len() && (#[trigger] query.categories@[c])@ == row.category@ {
            let c = choose|c: int|
                0 <= c < query.categories@.len() && (#[trigger] query.categories@[c])@ == row.category@;
            assert(texts(query.categories@)[c] == row.category@);
        }
        if texts(query.categories@).contains(row.category@) {
            let c = choose|c: int|
                0 <= c < texts(query.categories@).len() && texts(query.categories@)[c] == row.category@;
            assert(query.categories@[c]@ == row.category@);
        }
    }
    if row_selected(row, query) {
        lemma_selected_contains(rows, query, rows.len() as int, r);
    }
    if sel.contains(r) {
        lemma_selected_rows(rows, query, rows.len() as int);
        let t = choose|t: int| 0 <= t < sel.len() && sel[t] == r;
        assert(row_selected(rows[sel[t] as int], query));
    }
}


/// Taking a row into the groups, where the groups are for distinct videos:
/// if the row's video has a group whose segments include one that the row's
/// segment overlaps, nothing changes; if its group has none such, the group
/// gains the best of the row's candidates unless it already holds an equal
/// segment, and no other group changes; a row of a video without a group
/// opens one holding just the best of its candidates.
pub proof fn lemma_taking_a_row(
    rows: Seq<SponsorTime>,
    levels: Seq<Vec<u8>>,
    sel: Seq<usize>,
    st: Seq<Group>,
    r: usize,
)
    requires
        forall|g1: int, g2: int|
            0 <= g1 < st.len() && 0 <= g2 < st.len() && g1 != g2 ==> hash_of(
                rows,
                (#[trigger] st[g1]).first as int,
            ) != hash_of(rows, (#[trigger] st[g2]).first as int),
    ensures
        forall|g: int|
            0 <= g < st.len() && hash_of(rows, (#[trigger] st[g]).first as int) == hash_of(rows, r as int)
                ==> {
                let segs = st[g].segments;
                let best = best_of(rows, candidates(rows, levels, sel, r as int));
                let after = step(rows, levels, sel, st, r);
                &&& (exists|t: int| 0 <= t < segs.len() && overlaps(rows, levels, r as int, #[trigger] segs[t] as int))
                    ==> after == st
                &&& !(exists|t: int| 0 <= t < segs.len() && overlaps(rows, levels, r as int, #[trigger] segs[t] as int))
                    ==> {
                    &&& (exists|t: int| 0 <= t < segs.len() && same_segment(rows, #[trigger] segs[t] as int, best as int))
                        ==> after == st
                    &&& !(exists|t: int| 0 <= t < segs.len() && same_segment(rows, #[trigger] segs[t] as int, best as int))
                        ==> after == st.update(g, Group { first: st[g].first, segments: segs.push(best) })
                }
            },
        (forall|g: int| 0 <= g < st.len() ==> hash_of(rows, (#[trigger] st[g]).first as int) != hash_of(rows, r as int))
            ==> step(rows, levels, sel, st, r) == st.push(Group {
                first: r,
                segments: seq![best_of(rows, candidates(rows, levels, sel, r as int))],
            }),
{
    let h = hash_of(rows, r as int);
    let gi = group_index(rows, firsts(st), h);
    lemma_group_index_range(rows, firsts(st), h);
    assert forall|g: int|
        0 <= g < st.len() && hash_of(rows, (#[trigger] st[g]).first as int) == h implies gi == g by {
        if gi < 0 {
            lemma_group_index_absent(rows, firsts(st), h);
            assert(firsts(st)[g] == st[g].first);
        } else {
            assert(firsts(st)[gi] == st[gi].first);
        }
    }
    if forall|g: int| 0 <= g < st.len() ==> hash_of(rows, (#[trigger] st[g]).first as int) != h {
        if gi >= 0 {
            assert(firsts(st)[gi] == st[gi].first);
        }
        let best = best_of(rows, candidates(rows, levels, sel, r as int));
        let st1 = st.push(Group { first: r, segments: seq![] });
        assert(!overlaps_any(rows, levels, r as int, st1[st.len() as int].segments));
        assert(!holds_same(rows, st1[st.len() as int].segments, best as int));
        assert(st1[st.len() as int].segments.push(best) =~= seq![best]);
        assert(step(rows, levels, sel, st, r) =~= st.push(Group { first: r, segments: seq![best] }));
    }
}

} // verus!

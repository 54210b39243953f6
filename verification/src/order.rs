use vstd::prelude::*;
use crate::model::{SponsorTime, uuids_distinct};
use crate::text::{lex_lt, lemma_lex_total, lemma_lex_transitive, chars_lt};

verus! {

/// The rows `s` come in strictly increasing order of their UUIDs.
pub open spec fn sorted_by_uuid(rows: Seq<SponsorTime>, s: Seq<usize>) -> bool {
    forall|a: int, b: int|
        0 <= a < b < s.len() ==> lex_lt(rows[#[trigger] s[a] as int].uuid@, rows[#[trigger] s[b] as int].uuid@)
}

/// No row occurs twice in `s`.
pub open spec fn no_repeats(s: Seq<usize>) -> bool {
    forall|a: int, b: int| 0 <= a < b < s.len() ==> #[trigger] s[a] != #[trigger] s[b]
}

/// `keys` holds the characters of every row's UUID.
pub open spec fn uuid_keys(rows: Seq<SponsorTime>, keys: Seq<Vec<char>>) -> bool {
    &&& keys.len() == rows.len()
    &&& forall|i: int| 0 <= i < rows.len() ==> (#[trigger] keys[i])@ == rows[i].uuid@
}

/// Inserting `x` where everything before is smaller and the next is larger
/// keeps the rows sorted.
proof fn lemma_insert_sorted(rows: Seq<SponsorTime>, out: Seq<usize>, x: usize, p: int)
    requires
        sorted_by_uuid(rows, out),
        0 <= p <= out.len(),
        forall|q: int| 0 <= q < p ==> lex_lt(rows[#[trigger] out[q] as int].uuid@, rows[x as int].uuid@),
        p < out.len() ==> lex_lt(rows[x as int].uuid@, rows[out[p] as int].uuid@),
    ensures
        sorted_by_uuid(rows, out.insert(p, x)),
{
    let n = out.insert(p, x);
    assert forall|a: int, b: int| 0 <= a < b < n.len() implies lex_lt(
        rows[#[trigger] n[a] as int].uuid@,
        rows[#[trigger] n[b] as int].uuid@,
    ) by {
        if b < p {
            assert(n[a] == out[a] && n[b] == out[b]);
        } else if b == p {
            assert(n[a] == out[a]);
        } else if a < p {
            assert(n[a] == out[a] && n[b] == out[b - 1]);
        } else if a == p {
            assert(n[b] == out[b - 1]);
            if b - 1 > p {
                lemma_lex_transitive(
                    rows[x as int].uuid@,
                    rows[out[p] as int].uuid@,
                    rows[out[b - 1] as int].uuid@,
                );
            }
        } else {
            assert(n[a] == out[a - 1] && n[b] == out[b - 1]);
        }
    }
}

/// The rows `segs` put in increasing order of their UUIDs.
pub fn sort_by_uuid(rows: &Vec<SponsorTime>, keys: &Vec<Vec<char>>, segs: &Vec<usize>) -> (out: Vec<usize>)
    requires
        uuid_keys(rows@, keys@),
        uuids_distinct(rows@),
        no_repeats(segs@),
        forall|t: int| 0 <= t < segs.len() ==> #[trigger] segs@[t] < rows.len(),
    ensures
        out.len() == segs.len(),
        sorted_by_uuid(rows@, out@),
        forall|y: usize| out@.contains(y) <==> segs@.contains(y),
        forall|t: int| 0 <= t < out.len() ==> #[trigger] out@[t] < rows.len(),
{
    let mut out: Vec<usize> = Vec::new();
    let mut i: usize = 0;
    while i < segs.len()
        invariant
            uuid_keys(rows@, keys@),
            uuids_distinct(rows@),
            no_repeats(segs@),
            forall|t: int| 0 <= t < segs.len() ==> #[trigger] segs@[t] < rows.len(),
            i <= segs.len(),
            out.len() == i,
            sorted_by_uuid(rows@, out@),
            forall|y: usize| out@.contains(y) <==> segs@.take(i as int).contains(y),
            forall|t: int| 0 <= t < out.len() ==> #[trigger] out@[t] < rows.len(),
        decreases segs.len() - i,
    {
        let x = segs[i];
        assert(!segs@.take(i as int).contains(x)) by {
            if segs@.take(i as int).contains(x) {
                let t = choose|t: int| 0 <= t < i && segs@.take(i as int)[t] == x;
                assert(segs@[t] == segs@[i as int]);
            }
        }
        let mut p: usize = 0;
        while p < out.len() && !chars_lt(&keys[x], &keys[out[p]])
            invariant
                uuid_keys(rows@, keys@),
                uuids_distinct(rows@),
                x < rows.len(),
                !out@.contains(x),
                forall|t: int| 0 <= t < out.len() ==> #[trigger] out@[t] < rows.len(),
                p <= out.len(),
                forall|q: int|
                    0 <= q < p ==> lex_lt(rows@[#[trigger] out@[q] as int].uuid@, rows@[x as int].uuid@),
            decreases out.len() - p,
        {
            proof {
                let o = out@[p as int];
                assert(o != x);
                assert(rows@[o as int].uuid@ != rows@[x as int].uuid@);
                lemma_lex_total(rows@[o as int].uuid@, rows@[x as int].uuid@);
            }
            p = p + 1;
        }
        proof {
            lemma_insert_sorted(rows@, out@, x, p as int);
        }
        let ghost old_out = out@;
        out.insert(p, x);
        assert forall|y: usize| out@.contains(y) <==> segs@.take(i + 1).contains(y) by {
            let before = segs@.take(i as int);
            let after = segs@.take(i + 1);
            assert(after =~= before.push(x));
            if out@.contains(y) {
                let t = choose|t: int| 0 <= t < out@.len() && out@[t] == y;
                if t == p {
                    assert(after[i as int] == y);
                } else {
                    if t < p {
                        assert(old_out[t] == y);
                    } else {
                        assert(old_out[t - 1] == y);
                    }
                    assert(old_out.contains(y));
                    let u = choose|u: int| 0 <= u < before.len() && before[u] == y;
                    assert(after[u] == y);
                }
            }
            if after.contains(y) {
                let u = choose|u: int| 0 <= u < after.len() && after[u] == y;
                if u == i {
                    assert(out@[p as int] == y);
                } else {
                    assert(before[u] == y);
                    assert(before.contains(y));
                    assert(old_out.contains(y));
                    let t = choose|t: int| 0 <= t < old_out.len() && old_out[t] == y;
                    if t < p {
                        assert(out@[t] == y);
                    } else {
                        assert(out@[t + 1] == y);
                    }
                }
            }
        }
        i = i + 1;
    }
    assert(segs@.take(i as int) =~= segs@);
    out
}

} // verus!

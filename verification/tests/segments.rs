use sponsorblock_mirror::request::{skip_segments, Lookup};
use sponsorblock_mirror::model::{distinct_uuids, SponsorTime};
use sponsorblock_mirror::overlap::is_overlap;
use sponsorblock_mirror::request::{SegmentQuery, VideoName};
use sponsorblock_mirror::skip::{
    answer_search, best_segment, find_skip_segments, row_matches, select_rows, similar_segments,
    Answer, SegmentError,
};

fn row(uuid: &str, hash: &str, video: &str, category: &str, action: &str, start: i32, end: i32, votes: i32) -> SponsorTime {
    SponsorTime {
        video_id: video.to_string(),
        start_time: Some(start),
        end_time: Some(end),
        votes,
        locked: 0,
        incorrect_votes: 0,
        uuid: uuid.to_string(),
        user_id: format!("user-{}", uuid),
        time_submitted: 0,
        views: 0,
        category: category.to_string(),
        action_type: action.to_string(),
        service: "YouTube".to_string(),
        video_duration: Some(1000),
        hidden: 0,
        reputation: Some(0),
        shadow_hidden: 0,
        hashed_video_id: hash.to_string(),
        user_agent: String::new(),
        description: String::new(),
    }
}

fn by_prefix(p: &str, cats: &[&str]) -> SegmentQuery {
    SegmentQuery {
        name: VideoName::ByHashPrefix(p.to_string()),
        categories: cats.iter().map(|c| c.to_string()).collect(),
        fallback_url: String::new(),
    }
}

fn by_id(id: &str, cats: &[&str]) -> SegmentQuery {
    SegmentQuery {
        name: VideoName::ByID(id.to_string()),
        categories: cats.iter().map(|c| c.to_string()).collect(),
        fallback_url: String::new(),
    }
}

fn uniform(n: usize, v: u8) -> Vec<Vec<u8>> {
    vec![vec![v; n]; n]
}

#[test]
fn overlapping_submissions_keep_the_most_voted() {
    let rows = vec![
        row("u3", "abcd1234", "vid1", "sponsor", "skip", 10, 20, 1),
        row("u1", "abcd1234", "vid1", "sponsor", "skip", 11, 20, 5),
        row("u2", "abcd1234", "vid1", "sponsor", "skip", 50, 60, 0),
    ];
    let levels = vec![vec![3, 3, 0], vec![3, 3, 0], vec![0, 0, 3]];
    let out = find_skip_segments(&by_prefix("abcd", &["sponsor"]), &rows, &levels).ok().unwrap().unwrap();
    assert_eq!(out.len(), 1);
    assert_eq!(out[0].hash, "abcd1234");
    assert_eq!(out[0].video_id, "vid1");
    let got: Vec<(String, usize, i32)> = out[0].segments.iter().map(|s| (s.uuid.clone(), s.row, s.votes)).collect();
    assert_eq!(got, vec![("u1".to_string(), 1, 5), ("u2".to_string(), 2, 0)]);
    assert_eq!(out[0].segments[0].start, Some(11));
    assert_eq!(out[0].segments[0].end, Some(20));
    assert_eq!(out[0].segments[0].user_id, "user-u1");
}

#[test]
fn segments_are_sorted_by_uuid() {
    let rows = vec![
        row("c", "abcd1", "v", "sponsor", "skip", 100, 110, 0),
        row("a", "abcd1", "v", "sponsor", "skip", 0, 10, 0),
        row("b", "abcd1", "v", "sponsor", "skip", 50, 60, 0),
    ];
    let out = find_skip_segments(&by_prefix("abcd", &["sponsor"]), &rows, &uniform(3, 0)).ok().unwrap().unwrap();
    let uuids: Vec<&str> = out[0].segments.iter().map(|s| s.uuid.as_str()).collect();
    assert_eq!(uuids, vec!["a", "b", "c"]);
}

#[test]
fn videos_are_grouped_in_order_of_appearance() {
    let rows = vec![
        row("x1", "abcd99", "second", "sponsor", "skip", 0, 10, 0),
        row("x2", "abcd11", "first", "sponsor", "skip", 0, 10, 0),
        row("x3", "abcd99", "second", "sponsor", "skip", 30, 40, 2),
    ];
    let out = find_skip_segments(&by_prefix("abcd", &["sponsor"]), &rows, &uniform(3, 0)).ok().unwrap().unwrap();
    assert_eq!(out.len(), 2);
    assert_eq!(out[0].hash, "abcd99");
    assert_eq!(out[0].segments.len(), 2);
    assert_eq!(out[1].hash, "abcd11");
    assert_eq!(out[1].video_id, "first");
}

#[test]
fn unselected_rows_are_ignored() {
    let mut hidden = row("h", "abcd1", "v", "sponsor", "skip", 0, 10, 0);
    hidden.hidden = 1;
    let mut shadow = row("s", "abcd1", "v", "sponsor", "skip", 0, 10, 0);
    shadow.shadow_hidden = 1;
    let downvoted = row("d", "abcd1", "v", "sponsor", "skip", 0, 10, -1);
    let other_cat = row("o", "abcd1", "v", "intro", "skip", 0, 10, 0);
    let other_hash = row("p", "abce1", "v", "sponsor", "skip", 0, 10, 0);
    let rows = vec![hidden, shadow, downvoted, other_cat, other_hash];
    let q = by_prefix("abcd", &["sponsor"]);
    assert!(select_rows(&rows, &q).is_empty());
    assert!(matches!(find_skip_segments(&q, &rows, &uniform(5, 3)), Ok(None)));
}

#[test]
fn search_by_id_selects_the_video() {
    let rows = vec![
        row("a", "h1", "vidA", "sponsor", "skip", 0, 10, 0),
        row("b", "h2", "vidB", "sponsor", "skip", 0, 10, 0),
    ];
    let q = by_id("vidB", &["sponsor", "intro"]);
    assert_eq!(select_rows(&rows, &q), vec![1]);
    assert!(!row_matches(&rows[0], &q));
    let out = find_skip_segments(&q, &rows, &uniform(2, 0)).ok().unwrap().unwrap();
    assert_eq!(out.len(), 1);
    assert_eq!(out[0].hash, "h2");
}

#[test]
fn no_categories_answers_empty_list() {
    let rows = vec![row("a", "abcd", "v", "sponsor", "skip", 0, 10, 0)];
    let out = find_skip_segments(&by_prefix("abcd", &[]), &rows, &uniform(1, 0)).ok().unwrap();
    assert_eq!(out.map(|v| v.len()), Some(0));
}

#[test]
fn nothing_found() {
    let rows: Vec<SponsorTime> = Vec::new();
    assert!(matches!(find_skip_segments(&by_prefix("abcd", &["sponsor"]), &rows, &Vec::new()), Ok(None)));
}

#[test]
fn unorderable_repeated_segment() {
    let x = row("x", "abcd", "v", "sponsor", "skip", 0, 10, 0);
    let mut y = row("y", "abcd", "v", "sponsor", "skip", 5, 5, 9);
    y.video_duration = None;
    let rows = vec![x, y];
    let levels = vec![vec![3, 3], vec![0, 0]];
    assert!(matches!(
        find_skip_segments(&by_prefix("abcd", &["sponsor"]), &rows, &levels),
        Err(SegmentError::Unorderable)
    ));
}

#[test]
fn overlap_thresholds() {
    let rows = vec![
        row("a", "h", "v", "sponsor", "skip", 0, 10, 0),
        row("b", "h", "v", "sponsor", "skip", 1, 11, 0),
        row("c", "h", "v", "sponsor", "mute", 1, 11, 0),
        row("d", "h", "v", "chapter", "chapter", 0, 10, 0),
        row("e", "h", "v", "chapter", "chapter", 1, 11, 0),
    ];
    let mut levels = uniform(5, 0);
    // same action: above 0.6 needed
    levels[0][1] = 1;
    assert!(!is_overlap(&rows, &levels, 0, 1));
    levels[0][1] = 2;
    assert!(is_overlap(&rows, &levels, 0, 1));
    // other action: above 0.1 is enough
    levels[0][2] = 1;
    assert!(is_overlap(&rows, &levels, 0, 2));
    // chapters: above 0.8 needed
    levels[3][4] = 2;
    assert!(!is_overlap(&rows, &levels, 3, 4));
    levels[3][4] = 3;
    assert!(is_overlap(&rows, &levels, 3, 4));
    // categories differ: never
    levels[0][3] = 3;
    assert!(!is_overlap(&rows, &levels, 0, 3));
}

#[test]
fn strictly_inside_overlaps() {
    let rows = vec![
        row("a", "h", "v", "sponsor", "skip", 2, 8, 0),
        row("b", "h", "v", "sponsor", "skip", 0, 10, 0),
        row("c", "h", "v", "sponsor", "skip", 2, 10, 0),
    ];
    let levels = uniform(3, 0);
    assert!(is_overlap(&rows, &levels, 0, 1));
    assert!(!is_overlap(&rows, &levels, 1, 0));
    assert!(!is_overlap(&rows, &levels, 2, 1));
}

#[test]
fn similar_and_best() {
    let rows = vec![
        row("a", "h", "v", "sponsor", "skip", 0, 10, 4),
        row("b", "h", "v", "sponsor", "skip", 0, 10, 7),
        row("c", "g", "w", "sponsor", "skip", 0, 10, 9),
        row("d", "h", "v", "sponsor", "skip", 0, 10, 7),
    ];
    let levels = uniform(4, 3);
    let sel = vec![0, 1, 2, 3];
    assert_eq!(similar_segments(&rows, &levels, &sel, 0), vec![1, 3]);
    assert_eq!(best_segment(&rows, &vec![1, 3, 0]), 1);
    assert_eq!(best_segment(&rows, &vec![0, 2, 1]), 2);
    assert_eq!(best_segment(&rows, &vec![0]), 0);
}

#[test]
fn answer_holds_only_what_was_asked() {
    let rows = vec![
        row("a", "abcd01", "v1", "sponsor", "skip", 0, 10, 0),
        row("b", "abce01", "v2", "sponsor", "skip", 0, 10, 0),
        row("c", "abcd02", "v3", "intro", "skip", 0, 10, 0),
        row("d", "abcd02", "v3", "selfpromo", "skip", 20, 30, 0),
        row("e", "xbcd02", "v4", "sponsor", "skip", 0, 10, 0),
    ];
    let q = by_prefix("abcd", &["sponsor", "intro"]);
    let out = find_skip_segments(&q, &rows, &uniform(5, 0)).ok().unwrap().unwrap();
    assert_eq!(out.len(), 2);
    for s in &out {
        assert!(s.hash.starts_with("abcd"));
        assert!(!s.segments.is_empty());
        for seg in &s.segments {
            assert!(seg.category == "sponsor" || seg.category == "intro");
            assert_eq!(rows[seg.row].hashed_video_id, s.hash);
        }
    }
    assert_ne!(out[0].hash, out[1].hash);
}

#[test]
fn every_selected_row_is_answered() {
    // b overlaps a (and wins on votes); c overlaps nothing; d overlaps c but loses.
    let rows = vec![
        row("a", "abcd", "v", "sponsor", "skip", 0, 10, 1),
        row("b", "abcd", "v", "sponsor", "skip", 1, 10, 2),
        row("c", "abcd", "v", "sponsor", "skip", 40, 50, 3),
        row("d", "abcd", "v", "sponsor", "skip", 41, 50, 0),
    ];
    let mut levels = uniform(4, 0);
    for (i, j) in [(0, 1), (1, 0), (2, 3), (3, 2), (0, 0), (1, 1), (2, 2), (3, 3)] {
        levels[i][j] = 3;
    }
    let out = find_skip_segments(&by_prefix("abcd", &["sponsor"]), &rows, &levels).ok().unwrap().unwrap();
    let kept: Vec<usize> = out[0].segments.iter().map(|s| s.row).collect();
    assert_eq!(kept, vec![1, 2]);
    for r in 0..rows.len() {
        assert!(kept.iter().any(|&k| k == r || levels[r][k] > 1));
    }
}

#[test]
fn uuid_distinctness() {
    let a = row("a", "h", "v", "sponsor", "skip", 0, 10, 0);
    let b = row("b", "h", "v", "sponsor", "skip", 0, 10, 0);
    let a2 = row("a", "g", "w", "intro", "skip", 5, 6, 1);
    assert!(distinct_uuids(&vec![]));
    assert!(distinct_uuids(&vec![a, b]));
    let a = row("a", "h", "v", "sponsor", "skip", 0, 10, 0);
    let b = row("b", "h", "v", "sponsor", "skip", 0, 10, 0);
    assert!(!distinct_uuids(&vec![a, b, a2]));
}

#[test]
fn answer_local_or_fallback() {
    let rows = vec![row("a", "abcd1", "v", "sponsor", "skip", 0, 10, 0)];
    let mut q = by_prefix("abcd", &["sponsor"]);
    q.fallback_url = "https://example.invalid/abcd".to_string();
    match answer_search(&q, &rows, &uniform(1, 3)) {
        Ok(Answer::Local(v)) => assert_eq!(v[0].segments[0].uuid, "a"),
        _ => panic!("expected a local answer"),
    }
    let mut q2 = by_prefix("ffff", &["sponsor"]);
    q2.fallback_url = "https://example.invalid/ffff".to_string();
    match answer_search(&q2, &rows, &uniform(1, 3)) {
        Ok(Answer::Fallback(url)) => assert_eq!(url, "https://example.invalid/ffff"),
        _ => panic!("expected the fallback"),
    }
    match answer_search(&by_prefix("ffff", &[]), &rows, &uniform(1, 3)) {
        Ok(Answer::Local(v)) => assert!(v.is_empty()),
        _ => panic!("expected the empty list"),
    }
}

#[test]
fn rows_with_numbers_are_never_unorderable() {
    // the same shape as the unorderable case, but every number present
    let x = row("x", "abcd", "v", "sponsor", "skip", 0, 10, 0);
    let y = row("y", "abcd", "v", "sponsor", "skip", 5, 5, 9);
    let rows = vec![x, y];
    let levels = vec![vec![3, 3], vec![0, 0]];
    let out = find_skip_segments(&by_prefix("abcd", &["sponsor"]), &rows, &levels).ok().unwrap().unwrap();
    let kept: Vec<usize> = out[0].segments.iter().map(|s| s.row).collect();
    assert_eq!(kept, vec![1]);
}

#[test]
fn default_categories_give_the_same_answer() {
    let rows = vec![
        row("b", "abcd1", "v", "sponsor", "skip", 0, 10, 1),
        row("a", "abcd1", "v", "sponsor", "skip", 1, 10, 2),
        row("c", "abcd2", "w", "intro", "skip", 0, 10, 0),
    ];
    let levels = uniform(3, 3);
    let q1 = match skip_segments("ABCD", None) {
        Lookup::Query(q) => q,
        _ => panic!("expected a search"),
    };
    let q2 = match skip_segments("abcd", Some("[\"sponsor\"]")) {
        Lookup::Query(q) => q,
        _ => panic!("expected a search"),
    };
    let a1 = find_skip_segments(&q1, &rows, &levels).ok().unwrap().unwrap();
    let a2 = find_skip_segments(&q2, &rows, &levels).ok().unwrap().unwrap();
    assert_eq!(a1.len(), a2.len());
    for (s1, s2) in a1.iter().zip(a2.iter()) {
        assert_eq!(s1.hash, s2.hash);
        assert_eq!(s1.video_id, s2.video_id);
        let r1: Vec<usize> = s1.segments.iter().map(|s| s.row).collect();
        let r2: Vec<usize> = s2.segments.iter().map(|s| s.row).collect();
        assert_eq!(r1, r2);
    }
}

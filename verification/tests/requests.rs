use sponsorblock_mirror::request::{
    fake_is_user_vip, fake_user_info, parse_categories, skip_segments, skip_segments_by_id,
    Lookup, VideoName,
};

fn reply_text(l: &Lookup) -> Option<String> {
    match l {
        Lookup::Reply(t) => Some(t.clone()),
        _ => None,
    }
}

#[test]
fn hash_prefix_is_lowercased_and_searched() {
    let l = skip_segments("AbC1", Some("[\"sponsor\",\"intro\"]"));
    match l {
        Lookup::Query(q) => {
            match &q.name {
                VideoName::ByHashPrefix(p) => assert_eq!(p, "abc1"),
                _ => panic!("expected a hash prefix search"),
            }
            assert_eq!(q.categories, vec!["sponsor".to_string(), "intro".to_string()]);
            assert_eq!(
                q.fallback_url,
                "https://sponsor.ajay.app/api/skipSegments/abc1?categories=[\"sponsor\",\"intro\"]"
            );
        }
        _ => panic!("expected a search"),
    }
}

#[test]
fn hash_prefix_default_categories() {
    match skip_segments("0f9e", None) {
        Lookup::Query(q) => {
            assert_eq!(q.categories, vec!["sponsor".to_string()]);
            assert_eq!(q.fallback_url, "https://sponsor.ajay.app/api/skipSegments/0f9e?categories=[]");
        }
        _ => panic!("expected a search"),
    }
}

#[test]
fn bad_hash_prefixes_are_refused() {
    let msg = "Hash prefix does not match format requirements.";
    for h in ["abc", "abcde", "abcg", "", "ab c", "12345"] {
        assert_eq!(reply_text(&skip_segments(h, None)).as_deref(), Some(msg), "prefix {:?}", h);
    }
}

#[test]
fn bad_prefix_wins_over_bad_categories() {
    let msg = "Hash prefix does not match format requirements.";
    assert_eq!(reply_text(&skip_segments("zzzz", Some("not json"))).as_deref(), Some(msg));
}

#[test]
fn malformed_categories_are_reported() {
    assert!(matches!(skip_segments("abcd", Some("[sponsor")), Lookup::MalformedCategories));
    assert!(matches!(skip_segments_by_id("dQw4w9WgXcQ", Some("{}")), Lookup::MalformedCategories));
}

#[test]
fn empty_category_list_answers_empty() {
    assert_eq!(reply_text(&skip_segments("abcd", Some("[]"))).as_deref(), Some("[]"));
    assert_eq!(reply_text(&skip_segments_by_id("dQw4w9WgXcQ", Some("[]"))).as_deref(), Some("[]"));
}

#[test]
fn missing_video_id() {
    assert_eq!(
        reply_text(&skip_segments_by_id("", Some("not json"))).as_deref(),
        Some("videoID is missing")
    );
}

#[test]
fn search_by_video_id() {
    match skip_segments_by_id("dQw4w9WgXcQ", Some("[\"intro\"]")) {
        Lookup::Query(q) => {
            match &q.name {
                VideoName::ByID(id) => assert_eq!(id, "dQw4w9WgXcQ"),
                _ => panic!("expected an id search"),
            }
            assert_eq!(q.categories, vec!["intro".to_string()]);
            assert_eq!(
                q.fallback_url,
                "https://sponsor.ajay.app/api/skipSegments?videoID=dQw4w9WgXcQ&categories=[\"intro\"]"
            );
        }
        _ => panic!("expected a search"),
    }
}

#[test]
fn categories_parse() {
    assert_eq!(parse_categories(None), Some(vec!["sponsor".to_string()]));
    assert_eq!(parse_categories(Some("[\"a\",\"b\"]")), Some(vec!["a".to_string(), "b".to_string()]));
    assert_eq!(parse_categories(Some("[1]")), None);
    assert_eq!(parse_categories(Some("")), None);
}

#[test]
fn fake_endpoints() {
    assert_eq!(fake_is_user_vip(), "{\"hashedUserID\": \"\", \"vip\": false}");
    assert_eq!(
        fake_user_info(),
        "{\"userID\": \"\", \"userName\": \"\", \"minutesSaved\": 0, \"segmentCount\": 0, \"viewCount\": 0}"
    );
}

#[test]
fn prefix_case_does_not_matter() {
    let cats = Some("[\"sponsor\"]");
    for (upper, lower) in [("ABCD", "abcd"), ("aB9f", "ab9f"), ("0F1E", "0f1e")] {
        match (skip_segments(upper, cats), skip_segments(lower, cats)) {
            (Lookup::Query(a), Lookup::Query(b)) => {
                assert_eq!(a.categories, b.categories);
                assert_eq!(a.fallback_url, b.fallback_url);
                match (&a.name, &b.name) {
                    (VideoName::ByHashPrefix(p), VideoName::ByHashPrefix(q)) => {
                        assert_eq!(p, q);
                        assert_eq!(p, lower);
                    }
                    _ => panic!("expected hash prefix searches"),
                }
            }
            _ => panic!("expected searches"),
        }
    }
}

#[test]
fn default_categories_are_sponsor() {
    for (a, b) in [
        (skip_segments("abcd", None), skip_segments("abcd", Some("[\"sponsor\"]"))),
        (skip_segments_by_id("vid", None), skip_segments_by_id("vid", Some("[\"sponsor\"]"))),
    ] {
        match (a, b) {
            (Lookup::Query(a), Lookup::Query(b)) => assert_eq!(a.categories, b.categories),
            _ => panic!("expected searches"),
        }
    }
}

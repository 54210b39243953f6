use vstd::prelude::*;
use vstd::string::*;
use crate::outside::{
    default_categories, is_hash_prefix, json_string_list, lowercase, parse_string_list,
    regex_is_match, texts, to_lowercase, is_ascii_text, ascii_lowered, ascii_lower,
};

verus! {

/// Which segments a request asks for: those of the videos whose hashed id
/// starts with a prefix, or those of one video id.
pub enum VideoName {
    ByHashPrefix(String),
    ByID(String),
}

/// A database search that a request asks for, and the address of the central
/// server that is asked instead when the search finds nothing.
pub struct SegmentQuery {
    pub name: VideoName,
    pub categories: Vec<String>,
    pub fallback_url: String,
}

/// What a segment request leads to before any database work.
pub enum Lookup {
    /// Answer at once with this body.
    Reply(String),
    /// The `categories` parameter is not a JSON list of strings.
    MalformedCategories,
    /// Search the database.
    Query(SegmentQuery),
}

/// The body answered to a hash prefix that is not four hexadecimal digits.
pub open spec fn bad_hash_reply() -> Seq<char> {
    "Hash prefix does not match format requirements."@
}

/// The body answered to a request by id without an id.
pub open spec fn missing_id_reply() -> Seq<char> {
    "videoID is missing"@
}

/// The body answered when no category is asked for.
pub open spec fn empty_list_reply() -> Seq<char> {
    "[]"@
}

/// The text of the categories parameter, with its default.
pub open spec fn categories_text(categories: Option<&str>) -> Seq<char> {
    match categories {
        Some(c) => c@,
        None => default_categories(),
    }
}

/// The categories parameter as it is forwarded to the central server.
pub open spec fn forwarded_categories(categories: Option<&str>) -> Seq<char> {
    match categories {
        Some(c) => c@,
        None => "[]"@,
    }
}

/// The central server's address for a search by hash prefix.
pub open spec fn hash_fallback_url(prefix: Seq<char>, categories: Option<&str>) -> Seq<char> {
    "https://sponsor.ajay.app/api/skipSegments/"@ + prefix + "?categories="@
        + forwarded_categories(categories)
}

/// The central server's address for a search by video id.
pub open spec fn id_fallback_url(id: Seq<char>, categories: Option<&str>) -> Seq<char> {
    "https://sponsor.ajay.app/api/skipSegments?videoID="@ + id + "&categories="@
        + forwarded_categories(categories)
}

/// `name` asks for the hash prefix `p`.
pub open spec fn names_prefix(name: VideoName, p: Seq<char>) -> bool {
    name matches VideoName::ByHashPrefix(q) && q@ == p
}

/// `name` asks for the video id `id`.
pub open spec fn names_id(name: VideoName, id: Seq<char>) -> bool {
    name matches VideoName::ByID(q) && q@ == id
}

/// What a request leads to once its video has been accepted: the categories
/// are read as a JSON list; a list that cannot be read is reported, an empty
/// list is answered with `[]`, any other list gives a search.
pub open spec fn lookup_after_name(
    r: Lookup,
    categories: Option<&str>,
    name_ok: spec_fn(VideoName) -> bool,
    url: Seq<char>,
) -> bool {
    match json_string_list(categories_text(categories)) {
        None => r is MalformedCategories,
        Some(list) => if list.len() == 0 {
            r matches Lookup::Reply(body) && body@ == empty_list_reply()
        } else {
            r matches Lookup::Query(q) && name_ok(q.name) && texts(q.categories@) == list
                && q.fallback_url@ == url
        },
    }
}

/// A video name by its text.
pub enum NameView {
    Prefix(Seq<char>),
    Id(Seq<char>),
}

/// The text of a video name.
pub open spec fn name_view(n: VideoName) -> NameView {
    match n {
        VideoName::ByHashPrefix(p) => NameView::Prefix(p@),
        VideoName::ByID(id) => NameView::Id(id@),
    }
}

/// A [`Lookup`] by its texts.
pub enum LookupView {
    Reply(Seq<char>),
    MalformedCategories,
    Query(NameView, Seq<Seq<char>>, Seq<char>),
}

/// The texts of a lookup: the reply, or the search's name, categories and
/// fallback address.
pub open spec fn lookup_view(r: Lookup) -> LookupView {
    match r {
        Lookup::Reply(body) => LookupView::Reply(body@),
        Lookup::MalformedCategories => LookupView::MalformedCategories,
        Lookup::Query(q) => LookupView::Query(name_view(q.name), texts(q.categories@), q.fallback_url@),
    }
}

/// The texts of a lookup without the fallback address: what the local
/// search depends on.
pub open spec fn search_view(r: Lookup) -> LookupView {
    match lookup_view(r) {
        LookupView::Query(n, c, _) => LookupView::Query(n, c, seq![]),
        v => v,
    }
}

/// What [`skip_segments`] answers for the prefix text `hash`.
pub open spec fn skip_segments_result(hash: Seq<char>, categories: Option<&str>, r: Lookup) -> bool {
    &&& is_ascii_text(hash) ==> lowercase(hash) == ascii_lowered(hash)
    &&& !is_hash_prefix(lowercase(hash)) ==> (r matches Lookup::Reply(body) && body@
        == bad_hash_reply())
    &&& is_hash_prefix(lowercase(hash)) ==> lookup_after_name(
        r,
        categories,
        |n: VideoName| names_prefix(n, lowercase(hash)),
        hash_fallback_url(lowercase(hash), categories),
    )
    &&& is_hash_prefix(lowercase(hash)) && categories is None ==> json_string_list(
        default_categories(),
    ) == Some(seq!["sponsor"@])
}

/// What [`skip_segments_by_id`] answers for the id text `video_id`.
pub open spec fn skip_segments_by_id_result(
    video_id: Seq<char>,
    categories: Option<&str>,
    r: Lookup,
) -> bool {
    &&& video_id.len() == 0 ==> (r matches Lookup::Reply(body) && body@ == missing_id_reply())
    &&& video_id.len() > 0 ==> lookup_after_name(
        r,
        categories,
        |n: VideoName| names_id(n, video_id),
        id_fallback_url(video_id, categories),
    )
    &&& video_id.len() > 0 && categories is None ==> json_string_list(default_categories())
        == Some(seq!["sponsor"@])
}

/// Reads the categories parameter: the JSON list of strings it holds, by
/// default `["sponsor"]`, or `None` where it holds no such list.
pub fn parse_categories(categories: Option<&str>) -> (r: Option<Vec<String>>)
    ensures
        r is Some <==> json_string_list(categories_text(categories)) is Some,
        r is Some ==> json_string_list(categories_text(categories)) == Some(texts(r->0@)),
        categories is None ==> r is Some && texts(r->0@) == seq!["sponsor"@],
{
    let text = match categories {
        Some(c) => c,
        None => "[\"sponsor\"]",
    };
    match parse_string_list(text) {
        Ok(v) => Some(v),
        Err(_) => None,
    }
}

/// Shared tail of the two segment requests.
fn lookup(name: VideoName, categories: Option<&str>, fallback_url: String) -> (r: Lookup)
    ensures
        lookup_after_name(r, categories, |n: VideoName| n == name, fallback_url@),
        categories is None ==> json_string_list(default_categories()) == Some(seq!["sponsor"@]),
{
    match parse_categories(categories) {
        None => Lookup::MalformedCategories,
        Some(list) => {
            if list.len() == 0 {
                Lookup::Reply(String::from_str("[]"))
            } else {
                Lookup::Query(SegmentQuery { name, categories: list, fallback_url })
            }
        },
    }
}

/// The categories parameter as forwarded to the central server.
fn forwarded(categories: Option<&str>) -> (r: &str)
    ensures
        r@ == forwarded_categories(categories),
{
    match categories {
        Some(c) => c,
        None => "[]",
    }
}

/// A request for the segments of the videos whose hashed id starts with
/// `hash`. The prefix is lower-cased; unless it is then four hexadecimal
/// digits the request is answered with an error text. Otherwise the
/// categories are read and a search by that prefix is asked for.
pub fn skip_segments(hash: &str, categories: Option<&str>) -> (r: Lookup)
    ensures
        skip_segments_result(hash@, categories, r),
{
    let lower = to_lowercase(hash);
    let valid = match regex_is_match("^[0-9a-f]{4}$", lower.as_str()) {
        Some(m) => m,
        None => false,
    };
    if !valid {
        return Lookup::Reply(String::from_str("Hash prefix does not match format requirements."));
    }
    let mut url = String::from_str("https://sponsor.ajay.app/api/skipSegments/");
    url.append(lower.as_str());
    url.append("?categories=");
    url.append(forwarded(categories));
    lookup(VideoName::ByHashPrefix(lower), categories, url)
}

/// A request for the segments of one video id. An empty id is answered with
/// an error text; otherwise the categories are read and a search by that id
/// is asked for.
pub fn skip_segments_by_id(video_id: &str, categories: Option<&str>) -> (r: Lookup)
    ensures
        skip_segments_by_id_result(video_id@, categories, r),
{
    if video_id.is_empty() {
        return Lookup::Reply(String::from_str("videoID is missing"));
    }
    let mut url = String::from_str("https://sponsor.ajay.app/api/skipSegments?videoID=");
    url.append(video_id);
    url.append("&categories=");
    url.append(forwarded(categories));
    lookup(VideoName::ByID(video_id.to_owned()), categories, url)
}

/// ASCII lower-casing keeps ASCII text ASCII and is idempotent.
pub proof fn lemma_ascii_lowered(h: Seq<char>)
    requires
        is_ascii_text(h),
    ensures
        is_ascii_text(ascii_lowered(h)),
        ascii_lowered(ascii_lowered(h)) == ascii_lowered(h),
{
    let l = ascii_lowered(h);
    assert forall|i: int| 0 <= i < l.len() implies (#[trigger] l[i] as u32) < 128
        && ascii_lower(l[i]) == l[i] by {
        let c = h[i];
        if 'A' <= c && c <= 'Z' {
            assert(((c as u32) + 32) as char == l[i]);
        }
    }
    assert(ascii_lowered(l) =~= l);
}

/// The view of a lookup after an accepted name is fixed by the name's text,
/// the categories parameter and the fallback address.
proof fn lemma_lookup_view_fixed(
    r1: Lookup,
    r2: Lookup,
    categories1: Option<&str>,
    categories2: Option<&str>,
    nv: NameView,
    url1: Seq<char>,
    url2: Seq<char>,
)
    requires
        json_string_list(categories_text(categories1)) == json_string_list(
            categories_text(categories2),
        ),
        lookup_after_name(r1, categories1, |n: VideoName| name_view(n) == nv, url1),
        lookup_after_name(r2, categories2, |n: VideoName| name_view(n) == nv, url2),
    ensures
        search_view(r1) == search_view(r2),
        url1 == url2 ==> lookup_view(r1) == lookup_view(r2),
{
}

/// A hash prefix is case-insensitive: for ASCII text, a request with the
/// prefix and one with its lower-cased prefix are answered alike.
pub proof fn lemma_prefix_case_insensitive(
    hash: Seq<char>,
    categories: Option<&str>,
    r1: Lookup,
    r2: Lookup,
)
    requires
        is_ascii_text(hash),
        skip_segments_result(hash, categories, r1),
        skip_segments_result(ascii_lowered(hash), categories, r2),
    ensures
        lookup_view(r1) == lookup_view(r2),
{
    lemma_ascii_lowered(hash);
    let l = lowercase(hash);
    assert(lowercase(ascii_lowered(hash)) == l);
    if is_hash_prefix(l) {
        let nv = NameView::Prefix(l);
        assert(lookup_after_name(r1, categories, |n: VideoName| name_view(n) == nv, hash_fallback_url(l, categories)));
        assert(lookup_after_name(r2, categories, |n: VideoName| name_view(n) == nv, hash_fallback_url(l, categories)));
        lemma_lookup_view_fixed(r1, r2, categories, categories, nv, hash_fallback_url(l, categories), hash_fallback_url(l, categories));
    }
}

/// The default categories are `["sponsor"]`: a request without the
/// parameter and one with the text `["sponsor"]` ask for the same search
/// (only the forwarded parameter of the fallback address differs).
pub proof fn lemma_default_categories(
    hash: Seq<char>,
    video_id: Seq<char>,
    sponsor: &str,
    r1: Lookup,
    r2: Lookup,
    r3: Lookup,
    r4: Lookup,
)
    requires
        sponsor@ == default_categories(),
        skip_segments_result(hash, None, r1),
        skip_segments_result(hash, Some(sponsor), r2),
        skip_segments_by_id_result(video_id, None, r3),
        skip_segments_by_id_result(video_id, Some(sponsor), r4),
    ensures
        search_view(r1) == search_view(r2),
        search_view(r3) == search_view(r4),
{
    let l = lowercase(hash);
    if is_hash_prefix(l) {
        let nv = NameView::Prefix(l);
        assert(lookup_after_name(r1, None, |n: VideoName| name_view(n) == nv, hash_fallback_url(l, None)));
        assert(lookup_after_name(r2, Some(sponsor), |n: VideoName| name_view(n) == nv, hash_fallback_url(l, Some(sponsor))));
        lemma_lookup_view_fixed(r1, r2, None, Some(sponsor), nv, hash_fallback_url(l, None), hash_fallback_url(l, Some(sponsor)));
    }
    if video_id.len() > 0 {
        let nv = NameView::Id(video_id);
        assert(lookup_after_name(r3, None, |n: VideoName| name_view(n) == nv, id_fallback_url(video_id, None)));
        assert(lookup_after_name(r4, Some(sponsor), |n: VideoName| name_view(n) == nv, id_fallback_url(video_id, Some(sponsor))));
        lemma_lookup_view_fixed(r3, r4, None, Some(sponsor), nv, id_fallback_url(video_id, None), id_fallback_url(video_id, Some(sponsor)));
    }
}

/// The answer of the VIP query, which this mirror does not keep: nobody is a
/// VIP.
pub fn fake_is_user_vip() -> (r: String)
    ensures
        r@ == "{\"hashedUserID\": \"\", \"vip\": false}"@,
{
    String::from_str("{\"hashedUserID\": \"\", \"vip\": false}")
}

/// The answer of the user information query, which this mirror does not
/// keep: an empty user.
pub fn fake_user_info() -> (r: String)
    ensures
        r@
            == "{\"userID\": \"\", \"userName\": \"\", \"minutesSaved\": 0, \"segmentCount\": 0, \"viewCount\": 0}"@,
{
    String::from_str(
        "{\"userID\": \"\", \"userName\": \"\", \"minutesSaved\": 0, \"segmentCount\": 0, \"viewCount\": 0}",
    )
}

} // verus!

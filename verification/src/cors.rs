use vstd::prelude::*;
use vstd::string::*;

verus! {

/// The HTTP request methods.
#[derive(Clone, Copy, Debug)]
pub enum HttpMethod {
    Get,
    Put,
    Post,
    Delete,
    Options,
    Head,
    Trace,
    Connect,
    Patch,
}

/// The rule that opens the service to pages of any origin: every response
/// carries the CORS headers, and a preflight (`OPTIONS`) request is answered
/// with an empty `200 OK`.
pub struct CORS;

/// The CORS headers, in the order they are set.
pub open spec fn cors_headers() -> Seq<(Seq<char>, Seq<char>)> {
    seq![
        ("Access-Control-Allow-Origin"@, "*"@),
        ("Access-Control-Allow-Methods"@, "POST, GET, PATCH, OPTIONS"@),
        ("Access-Control-Allow-Headers"@, "*"@),
        ("Access-Control-Allow-Credentials"@, "true"@),
    ]
}

/// The texts of a list of headers.
pub open spec fn header_texts(h: Seq<(String, String)>) -> Seq<(Seq<char>, Seq<char>)> {
    h.map_values(|p: (String, String)| (p.0@, p.1@))
}

fn header(name: &str, value: &str) -> (r: (String, String))
    ensures
        r.0@ == name@,
        r.1@ == value@,
{
    (String::from_str(name), String::from_str(value))
}

impl CORS {
    /// The name under which the rule is registered.
    pub fn name(&self) -> (r: String)
        ensures
            r@ == "Add CORS headers to responses"@,
    {
        String::from_str("Add CORS headers to responses")
    }

    /// The headers set on every response.
    pub fn headers(&self) -> (r: Vec<(String, String)>)
        ensures
            header_texts(r@) == cors_headers(),
    {
        let mut v: Vec<(String, String)> = Vec::new();
        v.push(header("Access-Control-Allow-Origin", "*"));
        v.push(header("Access-Control-Allow-Methods", "POST, GET, PATCH, OPTIONS"));
        v.push(header("Access-Control-Allow-Headers", "*"));
        v.push(header("Access-Control-Allow-Credentials", "true"));
        assert(header_texts(v@) =~= cors_headers());
        v
    }

    /// Whether a response to a request of `method` is replaced by an empty
    /// `200 OK`: exactly for preflight requests.
    pub fn answers_preflight(&self, method: HttpMethod) -> (r: bool)
        ensures
            r == (method is Options),
    {
        match method {
            HttpMethod::Options => true,
            _ => false,
        }
    }
}

} // verus!

//! Configuration values and the parsing of those given as text.
use vstd::prelude::*;
use crate::address::{split_on, join_with, lacks, chars_of};
use crate::codec::{encode_base64, replace_all, lowercase, base64_of_text, replaced, lower_of};

verus! {

/// Where cross-origin requests are allowed from.
pub enum CorsOrigin {
    /// From anywhere.
    Any,
    /// From this one origin.
    Exact(String),
}

/// The service's configuration, as plain values.
pub struct Config {
    /// The broker proxy's base URL.
    pub beam_proxy_url: String,
    /// This service's application address on the broker.
    pub beam_app_id_long: String,
    /// This service's broker API key.
    pub api_key: String,
    /// The sites queried at start and by an empty request.
    pub sites: Vec<String>,
    /// Where cross-origin requests are allowed from.
    pub cors_origin: CorsOrigin,
    /// The project whose query is sent.
    pub project: String,
    /// The socket address the service binds to.
    pub bind_addr: String,
    /// The query body, before its identifiers are filled in.
    pub query_unencoded: String,
    /// The application that answers at each site.
    pub target: String,
}

/// The separator of the site list.
pub const SITE_SEPARATOR: char = ';';

/// Splits the configured site list at each `;`: the sites, rejoined with
/// `;`, give the list back, and none holds a `;`.
pub fn parse_sites(s: &str) -> (r: Vec<String>)
    ensures
        r@.len() >= 1,
        join_with(r@.map_values(|p: String| p@), ';') == s@,
        forall|k: int| 0 <= k < r@.len() ==> lacks(#[trigger] r@[k]@, ';'),
{
    split_on(s, SITE_SEPARATOR)
}

/// The text `*`.
pub open spec fn star() -> Seq<char> {
    seq!['*']
}

/// The text `any`.
pub open spec fn any_word() -> Seq<char> {
    seq!['a', 'n', 'y']
}

/// Whether a CORS setting allows any origin: `*`, or `any` in any case.
pub open spec fn cors_is_any(v: Seq<char>) -> bool {
    v == star() || lower_of(v) == any_word()
}

/// Whether `s` is exactly the characters of `t`.
fn text_is(s: &str, t: &Vec<char>) -> (r: bool)
    ensures
        r == (s@ == t@),
{
    let cs = chars_of(s);
    if cs.len() != t.len() {
        return false;
    }
    let mut i: usize = 0;
    while i < cs.len()
        invariant
            cs@ == s@,
            cs@.len() == t@.len(),
            i <= cs@.len(),
            forall|j: int| 0 <= j < i ==> cs@[j] == t@[j],
        decreases cs@.len() - i,
    {
        if cs[i] != t[i] {
            return false;
        }
        i = i + 1;
    }
    assert(cs@ =~= t@);
    true
}

/// Reads a CORS setting: `*` or `any` (in any case) allow every origin;
/// anything else names the one allowed origin.
pub fn parse_cors(v: &str) -> (r: CorsOrigin)
    ensures
        match r {
            CorsOrigin::Any => cors_is_any(v@),
            CorsOrigin::Exact(o) => !cors_is_any(v@) && o@ == v@,
        },
{
    let star_text: Vec<char> = vec!['*'];
    let any_text: Vec<char> = vec!['a', 'n', 'y'];
    assert(star_text@ =~= star());
    assert(any_text@ =~= any_word());
    if text_is(v, &star_text) {
        return CorsOrigin::Any;
    }
    let lower = lowercase(v);
    if text_is(lower.as_str(), &any_text) {
        CorsOrigin::Any
    } else {
        CorsOrigin::Exact(String::from_str(v))
    }
}

/// The placeholder of the query body for the encoded query library.
pub const LIBRARY_ENCODED_MARK: &'static str = "{{LIBRARY_ENCODED}}";

/// The query body with the base64 encoding of the query library put in place
/// of each `{{LIBRARY_ENCODED}}`.
pub fn fill_query_template(body: &str, library: &str) -> (r: String)
    ensures
        r@ == replaced(body@, LIBRARY_ENCODED_MARK@, base64_of_text(library@)),
{
    let encoded = encode_base64(library);
    replace_all(body, LIBRARY_ENCODED_MARK, encoded.as_str())
}

} // verus!

//! The content service that the browser build saves entries to: its
//! address and the requests it takes. Sending them is left to the front end.
use vstd::prelude::*;
use crate::json::JsonValue;
use crate::models::{dir_name_of, ContentType, SaveRequest};
use crate::text::substring;

verus! {

/// `s` without the `c`s at its end, as `str::trim_end_matches` leaves it.
pub open spec fn trim_end_char(s: Seq<char>, c: char) -> Seq<char>
    decreases s.len(),
{
    if s.len() > 0 && s.last() == c {
        trim_end_char(s.drop_last(), c)
    } else {
        s
    }
}

/// The service's base address without trailing slashes.
pub fn service_base(base_url: &str) -> (r: String)
    ensures
        r@ == trim_end_char(base_url@, '/'),
{
    let mut n = base_url.unicode_len();
    proof {
        assert(base_url@.take(n as int) =~= base_url@);
    }
    while n > 0 && base_url.get_char(n - 1) == '/'
        invariant
            n <= base_url@.len(),
            trim_end_char(base_url@, '/') == trim_end_char(base_url@.take(n as int), '/'),
        decreases n,
    {
        proof {
            assert(base_url@.take(n as int).drop_last() =~= base_url@.take(n - 1));
        }
        n -= 1;
    }
    proof {
        assert(base_url@.subrange(0, n as int) =~= base_url@.take(n as int));
    }
    substring(base_url, 0, n)
}

/// The address save requests are posted to.
pub fn save_url(base: &str) -> (r: String)
    ensures
        r@ == base@ + "/api/save-content"@,
{
    let mut r = String::from_str(base);
    r.append("/api/save-content");
    r
}

/// The request that saves an entry: its type by the name of its
/// directory, its slug, frontmatter and body.
pub fn save_request(content_type: &ContentType, slug: &str, frontmatter: JsonValue, body: &str) -> (r:
    SaveRequest)
    ensures
        r.content_type@ == dir_name_of(*content_type),
        r.slug@ == slug@,
        r.frontmatter@ == frontmatter@,
        r.body@ == body@,
{
    SaveRequest {
        content_type: String::from_str(content_type.dir_name()),
        slug: String::from_str(slug),
        frontmatter,
        body: String::from_str(body),
    }
}

} // verus!

//! The request builder's header and URL logic.
//!
//! An outgoing gRPC-Web request always carries the three fixed headers —
//! `content-type`, `accept` and `x-grpc-web` — and those take precedence:
//! caller-supplied `content-type` or `accept` headers are dropped without
//! error.  The destination URL is the base URL with the request path
//! appended, nothing more.

use vstd::prelude::*;
use vstd::string::StringExecFns;

verus! {

/// The fixed content type of every gRPC-Web request this client sends.
pub open spec fn spec_grpc_content_type() -> Seq<char> {
    "application/grpc-web+proto"@
}

/// The three fixed headers that open every outgoing request.
pub open spec fn fixed_headers() -> Seq<(Seq<char>, Seq<char>)> {
    seq![
        ("content-type"@, spec_grpc_content_type()),
        ("accept"@, spec_grpc_content_type()),
        ("x-grpc-web"@, "1"@),
    ]
}

/// A header name whose fixed value takes precedence over the caller's.
/// Header names are compared as handed in: the upstream header map
/// normalises them to lower case.
pub open spec fn is_reserved_header(name: Seq<char>) -> bool {
    name == "content-type"@ || name == "accept"@
}

/// The caller-supplied headers that survive: everything but the reserved
/// names, in order.
pub open spec fn kept_headers(user: Seq<(Seq<char>, Seq<char>)>) -> Seq<(Seq<char>, Seq<char>)>
    decreases user.len(),
{
    if user.len() == 0 {
        Seq::empty()
    } else {
        kept_headers(user.drop_last()) + (if is_reserved_header(user.last().0) {
            Seq::empty()
        } else {
            seq![user.last()]
        })
    }
}

/// The name/value views of a list of header pairs.
pub open spec fn header_views(v: Seq<(String, String)>) -> Seq<(Seq<char>, Seq<char>)> {
    v.map_values(|p: (String, String)| (p.0@, p.1@))
}

/// Builds the outgoing header list: the three fixed gRPC-Web headers
/// first, followed by the caller's headers with any `content-type` or
/// `accept` of their own dropped.
pub fn prepare_headers(user: &Vec<(String, String)>) -> (r: Vec<(String, String)>)
    ensures
        header_views(r@) == fixed_headers() + kept_headers(header_views(user@)),
{
    let mut r: Vec<(String, String)> = Vec::new();
    let content_type: String = "content-type".to_owned();
    let accept: String = "accept".to_owned();
    r.push(("content-type".to_owned(), "application/grpc-web+proto".to_owned()));
    r.push(("accept".to_owned(), "application/grpc-web+proto".to_owned()));
    r.push(("x-grpc-web".to_owned(), "1".to_owned()));
    proof {
        assert(header_views(r@) =~= fixed_headers());
    }
    let n = user.len();
    let mut i: usize = 0;
    while i < n
        invariant
            i <= n == user@.len(),
            content_type@ == "content-type"@,
            accept@ == "accept"@,
            header_views(r@) =~= fixed_headers() + kept_headers(
                header_views(user@.take(i as int)),
            ),
        decreases n - i,
    {
        let keep = !(user[i].0 == content_type || user[i].0 == accept);
        proof {
            assert(header_views(user@.take(i + 1)).drop_last() =~= header_views(
                user@.take(i as int),
            ));
            let u = user@[i as int];
            assert(header_views(user@.take(i + 1)).last() == (u.0@, u.1@));
        }
        if keep {
            let pair = (user[i].0.clone(), user[i].1.clone());
            let ghost pv = (pair.0@, pair.1@);
            let ghost prev = r@;
            r.push(pair);
            proof {
                let x = header_views(user@.take(i + 1));
                let u = user@[i as int];
                assert(pv == (u.0@, u.1@));
                assert(x.drop_last() =~= header_views(user@.take(i as int)));
                assert(x.last() == (u.0@, u.1@));
                assert(!is_reserved_header(x.last().0));
                assert(kept_headers(x) == kept_headers(x.drop_last()) + seq![x.last()]);
                assert(header_views(r@) =~= header_views(prev).push(pv));
                assert(header_views(prev).push(pv) =~= fixed_headers() + kept_headers(x));
            }
        } else {
            proof {
                assert(kept_headers(header_views(user@.take(i + 1))) =~= kept_headers(
                    header_views(user@.take(i as int)),
                ));
            }
        }
        i = i + 1;
    }
    proof {
        assert(user@.take(n as int) =~= user@);
    }
    r
}

/// The destination URL: the base URL with the request path appended, by
/// plain concatenation — the caller controls the path's shape.
pub fn compose_url(base_url: &str, path: &str) -> (r: String)
    ensures
        r@ == base_url@ + path@,
{
    let mut url = base_url.to_owned();
    url.append(path);
    url
}

/// The value of the first `content-type` header among the response's
/// header pairs, if one is there.
pub open spec fn spec_content_type_of(headers: Seq<(Seq<char>, Seq<char>)>) -> Option<Seq<char>>
    decreases headers.len(),
{
    if headers.len() == 0 {
        None
    } else if headers[0].0 == "content-type"@ {
        Some(headers[0].1)
    } else {
        spec_content_type_of(headers.skip(1))
    }
}

/// Picks the response's content-type out of its header pairs: the value
/// of the first header named `content-type`, if any.
pub fn response_content_type(headers: &Vec<(String, String)>) -> (r: Option<String>)
    ensures
        match r {
            Some(v) => spec_content_type_of(header_views(headers@)) == Some(v@),
            None => spec_content_type_of(header_views(headers@)) is None,
        },
{
    let content_type: String = "content-type".to_owned();
    let n = headers.len();
    let mut i: usize = 0;
    proof {
        assert(header_views(headers@).skip(0) =~= header_views(headers@));
    }
    while i < n
        invariant
            i <= n == headers@.len(),
            content_type@ == "content-type"@,
            spec_content_type_of(header_views(headers@)) == spec_content_type_of(
                header_views(headers@).skip(i as int),
            ),
        decreases n - i,
    {
        proof {
            let h = headers@[i as int];
            assert(header_views(headers@).skip(i as int)[0] == (h.0@, h.1@));
            assert(header_views(headers@).skip(i as int).skip(1) =~= header_views(headers@).skip(
                i + 1,
            ));
        }
        if headers[i].0 == content_type {
            return Some(headers[i].1.clone());
        }
        i = i + 1;
    }
    proof {
        assert(header_views(headers@).skip(i as int) =~= Seq::<(Seq<char>, Seq<char>)>::empty());
    }
    None
}

} // verus!

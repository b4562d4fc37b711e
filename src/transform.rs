//! Rewriting an inbound request into the request sent to the upstream API.

use vstd::prelude::*;
use vstd::utf8::encode_utf8;

verus! {

/// One header line: its name as the client wrote it (HTTP ignores the case of ASCII
/// letters in it) and its value as raw bytes.
pub struct Header {
    pub name: String,
    pub value: Vec<u8>,
}

impl View for Header {
    type V = (Seq<char>, Seq<u8>);

    open spec fn view(&self) -> (Seq<char>, Seq<u8>) {
        (self.name@, self.value@)
    }
}

/// What the proxy reads of a request from a client. The body is passed on untouched by
/// the caller and does not appear here.
pub struct InboundRequest {
    pub method: String,
    /// The path and query of the request target, or none where the target has no path
    /// (the authority form).
    pub path_and_query: Option<String>,
    pub headers: Vec<Header>,
}

/// The request sent upstream: its target is `scheme://authority` followed by
/// `path_and_query`.
pub struct OutboundRequest {
    pub method: String,
    pub scheme: String,
    pub authority: String,
    pub path_and_query: String,
    pub headers: Vec<Header>,
}

/// Why an inbound request cannot be forwarded.
#[derive(Debug, Clone, Copy, PartialEq, Eq, Structural)]
pub enum ProxyError {
    /// The request target has no path and query to forward.
    MalformedRequest,
}

/// The host of the upstream API: every request goes there, whatever the client asked for.
pub open spec fn upstream_host() -> Seq<char> {
    "api.curseforge.com"@
}

/// The scheme of every outbound request.
pub open spec fn secure_scheme() -> Seq<char> {
    "https"@
}

/// The header that carries the secret key.
pub open spec fn api_key_header() -> Seq<char> {
    "x-api-key"@
}

pub open spec fn host_header() -> Seq<char> {
    "host"@
}

pub open spec fn headers_view(hs: Seq<Header>) -> Seq<(Seq<char>, Seq<u8>)> {
    hs.map_values(|h: Header| h@)
}

/// The headers `hs` with every line named `name`, ASCII case aside, taken out and one
/// line `name: value` added: what inserting into an HTTP header map does.
pub open spec fn with_header(hs: Seq<(Seq<char>, Seq<u8>)>, name: Seq<char>, value: Seq<u8>) -> Seq<
    (Seq<char>, Seq<u8>),
> {
    hs.filter(named_otherwise(name)).push((name, value))
}

/// Holds of a header line whose name is not `name`, ASCII case aside.
pub open spec fn named_otherwise(name: Seq<char>) -> spec_fn((Seq<char>, Seq<u8>)) -> bool {
    |h: (Seq<char>, Seq<u8>)| !same_name(h.0, name)
}

/// Two characters that are equal once ASCII letters are put in lower case.
pub open spec fn same_name_char(a: char, b: char) -> bool {
    a == b || ('A' <= a && a <= 'Z' && a as u32 + 32 == b as u32) || ('A' <= b && b <= 'Z'
        && b as u32 + 32 == a as u32)
}

/// Two header names that HTTP takes as one: equal but for the case of ASCII letters.
pub open spec fn same_name(a: Seq<char>, b: Seq<char>) -> bool {
    a.len() == b.len() && forall|i: int| 0 <= i < a.len() ==> same_name_char(#[trigger] a[i], b[i])
}

/// Tells whether two header names are the same name, ASCII case aside.
fn names_match(a: &str, b: &str) -> (r: bool)
    ensures
        r == same_name(a@, b@),
{
    let n = a.unicode_len();
    if n != b.unicode_len() {
        return false;
    }
    let mut i: usize = 0;
    while i < n
        invariant
            n == a@.len() == b@.len(),
            i <= n,
            forall|j: int| 0 <= j < i ==> same_name_char(#[trigger] a@[j], b@[j]),
        decreases n - i,
    {
        let x = a.get_char(i);
        let y = b.get_char(i);
        let same = x == y || ('A' <= x && x <= 'Z' && x as u32 + 32 == y as u32) || ('A' <= y && y
            <= 'Z' && y as u32 + 32 == x as u32);
        if !same {
            return false;
        }
        i = i + 1;
    }
    true
}

/// The headers of the outbound request made from headers `hs`, with secret key `key`.
pub open spec fn outbound_headers(hs: Seq<(Seq<char>, Seq<u8>)>, key: Seq<u8>) -> Seq<
    (Seq<char>, Seq<u8>),
> {
    with_header(
        with_header(hs, host_header(), encode_utf8(upstream_host())),
        api_key_header(),
        key,
    )
}

proof fn lemma_filter_within(hs: Seq<(Seq<char>, Seq<u8>)>, name: Seq<char>, k: int)
    requires
        0 <= k < hs.filter(named_otherwise(name)).len(),
    ensures
        hs.contains(hs.filter(named_otherwise(name))[k]),
    decreases hs.len(),
{
    reveal(Seq::filter);
    let sub = hs.drop_last().filter(named_otherwise(name));
    if k < sub.len() {
        lemma_filter_within(hs.drop_last(), name, k);
        let j = choose|j: int| 0 <= j < hs.drop_last().len() && hs.drop_last()[j] == sub[k];
        assert(hs[j] == sub[k]);
    } else {
        assert(hs[hs.len() - 1] == hs.filter(named_otherwise(name))[k]);
    }
}

proof fn lemma_with_header(hs: Seq<(Seq<char>, Seq<u8>)>, name: Seq<char>, value: Seq<u8>)
    ensures
        with_header(hs, name, value).contains((name, value)),
        forall|i: int|
            0 <= i < with_header(hs, name, value).len() && same_name(
                (#[trigger] with_header(hs, name, value)[i]).0,
                name,
            ) ==> i == with_header(hs, name, value).len() - 1,
        forall|h: (Seq<char>, Seq<u8>)|
            !same_name(h.0, name) ==> (hs.contains(h) <==> #[trigger] with_header(
                hs,
                name,
                value,
            ).contains(h)),
{
    let kept = hs.filter(named_otherwise(name));
    let o = with_header(hs, name, value);
    assert(o[o.len() - 1] == (name, value));
    assert forall|i: int| 0 <= i < o.len() && same_name((#[trigger] o[i]).0, name) implies i
        == o.len() - 1 by {
        if i < o.len() - 1 {
            assert(o[i] == kept[i]);
            kept.lemma_filter_pred(named_otherwise(name), i);
        }
    }
    assert forall|h: (Seq<char>, Seq<u8>)| !same_name(h.0, name) implies (hs.contains(h)
        <==> #[trigger] o.contains(h)) by {
        if hs.contains(h) {
            let j = choose|j: int| 0 <= j < hs.len() && hs[j] == h;
            hs.lemma_filter_contains(named_otherwise(name), j);
            let k = choose|k: int| 0 <= k < kept.len() && kept[k] == h;
            assert(o[k] == h);
        }
        if o.contains(h) {
            let k = choose|k: int| 0 <= k < o.len() && o[k] == h;
            assert(k < o.len() - 1);
            assert(kept[k] == h);
            lemma_filter_within(hs, name, k);
        }
    }
}

/// Every outbound request carries the secret key: its headers hold the line
/// `x-api-key: key` and no other line of that name in any case of its letters, and the
/// line `host: <upstream host>` and no other line of that name. Every other line of the
/// client's is kept.
pub proof fn lemma_outbound_headers_carry_key(hs: Seq<(Seq<char>, Seq<u8>)>, key: Seq<u8>)
    ensures
        outbound_headers(hs, key).contains((api_key_header(), key)),
        forall|i: int|
            0 <= i < outbound_headers(hs, key).len() && same_name(
                (#[trigger] outbound_headers(hs, key)[i]).0,
                api_key_header(),
            ) ==> outbound_headers(hs, key)[i] == (api_key_header(), key),
        outbound_headers(hs, key).contains((host_header(), encode_utf8(upstream_host()))),
        forall|i: int|
            0 <= i < outbound_headers(hs, key).len() && same_name(
                (#[trigger] outbound_headers(hs, key)[i]).0,
                host_header(),
            ) ==> outbound_headers(hs, key)[i] == (host_header(), encode_utf8(upstream_host())),
        forall|h: (Seq<char>, Seq<u8>)|
            !same_name(h.0, api_key_header()) && !same_name(h.0, host_header()) ==> (hs.contains(h)
                <==> #[trigger] outbound_headers(hs, key).contains(h)),
{
    let host = encode_utf8(upstream_host());
    let mid = with_header(hs, host_header(), host);
    let o = outbound_headers(hs, key);
    lemma_with_header(hs, host_header(), host);
    lemma_with_header(mid, api_key_header(), key);
    assert(o[o.len() - 1] == (api_key_header(), key));
    reveal_strlit("host");
    reveal_strlit("x-api-key");
    assert(!same_name(host_header(), api_key_header())) by {
        assert(host_header().len() != api_key_header().len());
    }
    assert(mid[mid.len() - 1] == (host_header(), host));
    assert(mid.contains((host_header(), host)));
    assert(o.contains((host_header(), host)));
    assert forall|i: int| 0 <= i < o.len() && same_name((#[trigger] o[i]).0, host_header()) implies o[i]
        == (host_header(), host) by {
        assert(i != o.len() - 1);
        assert(o.contains(o[i]));
        assert(mid.contains(o[i]));
        let j = choose|j: int| 0 <= j < mid.len() && mid[j] == o[i];
    }
}

/// Sets the header `name` to `value` alone, removing the lines of that name it had,
/// whatever the case of their letters.
pub fn set_header(headers: &mut Vec<Header>, name: &str, value: Vec<u8>)
    ensures
        headers_view(final(headers)@) == with_header(headers_view(old(headers)@), name@, value@),
{
    let ghost orig = headers@;
    let ghost new_line = (name@, value@);
    let name = name.to_owned();
    let ghost hs = headers_view(orig);
    let ghost keep = named_otherwise(name@);
    let mut rest: Vec<Header> = Vec::new();
    std::mem::swap(headers, &mut rest);
    let mut kept: Vec<Header> = Vec::new();
    let ghost mut k: int = 0;
    assert(orig.subrange(0, orig.len() as int) =~= orig);
    while rest.len() > 0
        invariant
            0 <= k <= orig.len(),
            hs == headers_view(orig),
            keep == named_otherwise(name@),
            rest@ =~= orig.subrange(k, orig.len() as int),
            headers_view(kept@) =~= hs.subrange(0, k).filter(keep),
        decreases rest.len(),
    {
        let h = rest.remove(0);
        let ghost before = kept@;
        proof {
            assert(hs[k] == h@);
            assert(hs.subrange(0, k + 1).drop_last() =~= hs.subrange(0, k));
            assert(hs.subrange(0, k + 1).last() == hs[k]);
        }
        if !names_match(h.name.as_str(), name.as_str()) {
            kept.push(h);
            assert(headers_view(kept@) =~= headers_view(before).push(hs[k]));
        }
        proof {
            reveal(Seq::filter);
            assert(hs.subrange(0, k + 1).filter(keep) == if keep(hs[k]) {
                hs.subrange(0, k).filter(keep).push(hs[k])
            } else {
                hs.subrange(0, k).filter(keep)
            });
            k = k + 1;
        }
    }
    assert(hs.subrange(0, k) =~= hs);
    let ghost before = kept@;
    kept.push(Header { name, value });
    assert(headers_view(kept@) =~= headers_view(before).push(new_line));
    *headers = kept;
}

/// Makes the request sent upstream from a client's request: the scheme becomes `https`,
/// the authority the upstream host, whatever the client named; method and path and query
/// stay as they were; the `host` header names the upstream host and the secret key is
/// sent in `x-api-key`, each replacing any line of that name that the client sent, in
/// whatever case.
pub fn get_proxy_req(req: InboundRequest, api_key: &str) -> (r: Result<OutboundRequest, ProxyError>)
    ensures
        r is Err <==> req.path_and_query is None,
        r matches Err(e) ==> e == ProxyError::MalformedRequest,
        r matches Ok(out) ==> {
            &&& out.method@ == req.method@
            &&& out.scheme@ == secure_scheme()
            &&& out.authority@ == upstream_host()
            &&& out.path_and_query@ == req.path_and_query.unwrap()@
            &&& headers_view(out.headers@) == outbound_headers(
                headers_view(req.headers@),
                encode_utf8(api_key@),
            )
        },
{
    let InboundRequest { method, path_and_query, headers } = req;
    let path_and_query = match path_and_query {
        Some(pq) => pq,
        None => return Err(ProxyError::MalformedRequest),
    };
    let mut headers = headers;
    set_header(&mut headers, "host", "api.curseforge.com".as_bytes_vec());
    set_header(&mut headers, "x-api-key", api_key.as_bytes_vec());
    Ok(
        OutboundRequest {
            method,
            scheme: "https".to_owned(),
            authority: "api.curseforge.com".to_owned(),
            path_and_query,
            headers,
        },
    )
}

} // verus!

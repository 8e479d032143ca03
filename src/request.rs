use vstd::prelude::*;
use vstd::string::StrSliceExecFns;
use vstd::utf8::encode_utf8;
use crate::error::Error;
use crate::fields::{Fields, insert_entry};
use crate::text::{chars_of, push_char, push_chars, push_text, url_encode, percent_encoded};
use crate::url::{
    URL, parse_url, has_char, is_https, spec_host_port, spec_resource, contains_char,
};

verus! {

/// One visited location: whether it was secure, its `host:port`, its resource.
pub type Hop = (bool, Seq<char>, Seq<char>);

/// What a request is, as plain values.
pub struct RequestView {
    pub https: bool,
    pub host: Seq<char>,
    pub resource: Seq<char>,
    pub headers: Seq<(Seq<char>, Seq<char>)>,
    pub query: Seq<(Seq<char>, Seq<char>)>,
    pub timeout: Option<u64>,
    pub max_redirects: nat,
    pub redirects: Seq<Hop>,
}

impl RequestView {
    /// The location that the request is for.
    pub open spec fn hop(self) -> Hop {
        (self.https, self.host, self.resource)
    }

    /// More hops were followed than the request allows.
    pub open spec fn too_many_hops(self) -> bool {
        self.redirects.len() > self.max_redirects
    }

    /// The request's location was visited before.
    pub open spec fn revisits(self) -> bool {
        exists|i: int| 0 <= i < self.redirects.len() && self.redirects[i] == self.hop()
    }
}

/// The request that a URL gives before any builder call.
pub open spec fn new_view(url: Seq<char>) -> RequestView {
    RequestView {
        https: is_https(url),
        host: spec_host_port(url),
        resource: spec_resource(url),
        headers: Seq::empty(),
        query: Seq::empty(),
        timeout: None,
        max_redirects: 100,
        redirects: Seq::empty(),
    }
}

pub open spec fn hop_view(h: (bool, String, String)) -> Hop {
    (h.0, h.1@, h.2@)
}

/// An HTTP request.
///
/// Generally created by [`get`], then sent; it does not do much on its own.
#[derive(Debug)]
pub struct Request {
    host: URL,
    resource: URL,
    headers: Fields,
    query: Fields,
    timeout: Option<u64>,
    max_redirects: usize,
    https: bool,
    redirects: Vec<(bool, URL, URL)>,
}

impl View for Request {
    type V = RequestView;

    closed spec fn view(&self) -> RequestView {
        RequestView {
            https: self.https,
            host: self.host@,
            resource: self.resource@,
            headers: self.headers.entries(),
            query: self.query.entries(),
            timeout: self.timeout,
            max_redirects: self.max_redirects as nat,
            redirects: self.redirects@.map_values(|h: (bool, String, String)| hop_view(h)),
        }
    }
}

/// `GET`, then a space.
pub open spec fn get_word() -> Seq<char> {
    seq!['G', 'E', 'T', ' ']
}

/// A space, the protocol version, a line end, then the host header's name.
pub open spec fn version_and_host() -> Seq<char> {
    seq![' ', 'H', 'T', 'T', 'P', '/', '1', '.', '1', '\r', '\n', 'H', 'o', 's', 't', ':', ' ']
}

pub open spec fn crlf() -> Seq<char> {
    seq!['\r', '\n']
}

/// The separator before the `n`-th query parameter (from 0).
pub open spec fn query_separator(resource: Seq<char>, n: nat) -> char {
    if n == 0 && !has_char(resource, '?') {
        '?'
    } else {
        '&'
    }
}

/// The query parameters, each as `sep key=value`, percent-encoded.
pub open spec fn query_suffix(resource: Seq<char>, q: Seq<(Seq<char>, Seq<char>)>) -> Seq<char>
    decreases q.len(),
{
    if q.len() == 0 {
        Seq::empty()
    } else {
        let n = (q.len() - 1) as nat;
        query_suffix(resource, q.drop_last()) + seq![query_separator(resource, n)]
            + percent_encoded(q.last().0) + seq!['='] + percent_encoded(q.last().1)
    }
}

/// The header lines, `Key: Value` each.
pub open spec fn header_lines(h: Seq<(Seq<char>, Seq<char>)>) -> Seq<char>
    decreases h.len(),
{
    if h.len() == 0 {
        Seq::empty()
    } else {
        header_lines(h.drop_last()) + h.last().0 + seq![':', ' '] + h.last().1 + crlf()
    }
}

/// The resource as it stands in the request line.
pub open spec fn target(v: RequestView) -> Seq<char> {
    v.resource + query_suffix(v.resource, v.query)
}

/// The request's text: request line, host header, other headers, empty line.
pub open spec fn request_text(v: RequestView) -> Seq<char> {
    get_word() + target(v) + version_and_host() + v.host + crlf() + header_lines(v.headers) + crlf()
}

/// Index of the first `c` in `s`.
pub open spec fn first_at(s: Seq<char>, c: char, i: int) -> bool {
    0 <= i < s.len() && s[i] == c && forall|j: int| 0 <= j < i ==> s[j] != c
}

/// What follows the first `#`, up to a second `#` if there is one.
pub open spec fn fragment_of(r: Seq<char>) -> Option<Seq<char>> {
    if has_char(r, '#') {
        let i = choose|i: int| first_at(r, '#', i);
        let rest = r.subrange(i + 1, r.len() as int);
        if has_char(rest, '#') {
            let j = choose|j: int| first_at(rest, '#', j);
            Some(rest.subrange(0, j))
        } else {
            Some(rest)
        }
    } else {
        None
    }
}

/// The new resource, carrying over the fragment of the old one when it has
/// none of its own.
pub open spec fn with_fragment(new: Seq<char>, old: Seq<char>) -> Seq<char> {
    if has_char(new, '#') {
        new
    } else {
        match fragment_of(old) {
            Some(f) => new + seq!['#'] + f,
            None => new,
        }
    }
}

/// Whether `s` holds `://`.
pub open spec fn has_scheme(s: Seq<char>) -> bool {
    exists|i: int| 0 <= i && i + 3 <= s.len() && #[trigger] s[i] == ':' && s[i + 1] == '/' && s[i + 2] == '/'
}

/// The request after being sent to `url`: a full URL is parsed, anything
/// else is a resource on the same host; the old location joins the history.
pub open spec fn redirect_view(v: RequestView, url: Seq<char>) -> RequestView {
    if has_scheme(url) {
        RequestView {
            https: is_https(url),
            host: spec_host_port(url),
            resource: with_fragment(spec_resource(url), v.resource),
            redirects: v.redirects.push(v.hop()),
            ..v
        }
    } else {
        RequestView {
            resource: with_fragment(url, v.resource),
            redirects: v.redirects.push(v.hop()),
            ..v
        }
    }
}

/// What redirecting `v` to `url` gives: too many redirections when the
/// history has grown past the limit, else a loop when the new location was
/// visited before, else the redirected request.
pub open spec fn redirect_result(v: RequestView, url: Seq<char>, r: Result<Request, Error>) -> bool {
    let n = redirect_view(v, url);
    if n.too_many_hops() {
        r matches Err(Error::TooManyRedirections)
    } else if n.revisits() {
        r matches Err(Error::InfiniteRedirectionLoop)
    } else {
        r matches Ok(q) && q@ == n
    }
}

} // verus!

verus! {

/// Position of the first `c` in `cs` at or after `from`.
pub(crate) fn find_from(cs: &Vec<char>, c: char, from: usize) -> (r: Option<usize>)
    requires
        from <= cs.len(),
    ensures
        match r {
            Some(k) => from <= k < cs.len() && cs@[k as int] == c && forall|j: int|
                from <= j < k ==> cs@[j] != c,
            None => forall|j: int| from <= j < cs.len() ==> cs@[j] != c,
        },
{
    let mut k: usize = from;
    while k < cs.len()
        invariant
            from <= k <= cs.len(),
            forall|j: int| from <= j < k ==> cs@[j] != c,
        decreases cs.len() - k,
    {
        if cs[k] == c {
            return Some(k);
        }
        k += 1;
    }
    None
}

/// The characters of `cs` from `a` up to `b`.
pub(crate) fn sub_chars(cs: &Vec<char>, a: usize, b: usize) -> (r: Vec<char>)
    requires
        a <= b <= cs.len(),
    ensures
        r@ == cs@.subrange(a as int, b as int),
{
    let mut r: Vec<char> = Vec::new();
    let mut k: usize = a;
    while k < b
        invariant
            a <= k <= b <= cs.len(),
            r@ == cs@.subrange(a as int, k as int),
        decreases b - k,
    {
        r.push(cs[k]);
        k += 1;
        assert(r@ =~= cs@.subrange(a as int, k as int));
    }
    r
}

proof fn lemma_first_at_unique(s: Seq<char>, c: char, i: int, k: int)
    requires
        first_at(s, c, i),
        first_at(s, c, k),
    ensures
        i == k,
{
    if i < k {
        assert(s[i] != c);
    } else if k < i {
        assert(s[k] != c);
    }
}

/// Whether the text holds `://`.
fn contains_scheme(cs: &Vec<char>) -> (r: bool)
    ensures
        r == has_scheme(cs@),
{
    let mut i: usize = 0;
    while cs.len() >= 3 && i <= cs.len() - 3
        invariant
            forall|j: int|
                0 <= j < i && j + 3 <= cs.len() ==> !(#[trigger] cs@[j] == ':' && cs@[j + 1] == '/'
                    && cs@[j + 2] == '/'),
        decreases cs.len() - i,
    {
        if cs[i] == ':' && cs[i + 1] == '/' && cs[i + 2] == '/' {
            return true;
        }
        i += 1;
    }
    false
}

/// `new`, with the fragment of `old` carried over when `new` has none.
fn inherit_fragment(new: URL, old: &URL) -> (r: URL)
    ensures
        r@ == with_fragment(new@, old@),
{
    let nc = chars_of(new.as_str());
    if contains_char(&nc, '#') {
        return new;
    }
    let oc = chars_of(old.as_str());
    match find_from(&oc, '#', 0) {
        None => {
            assert(!has_char(old@, '#'));
            new
        },
        Some(i) => {
            let ghost s = old@;
            assert(first_at(s, '#', i as int));
            proof {
                let c = choose|c: int| first_at(s, '#', c);
                lemma_first_at_unique(s, '#', i as int, c);
            }
            let ghost rest = s.subrange(i + 1, s.len() as int);
            let end = match find_from(&oc, '#', i + 1) {
                Some(k) => {
                    assert(first_at(rest, '#', k - i - 1));
                    proof {
                        let c = choose|c: int| first_at(rest, '#', c);
                        lemma_first_at_unique(rest, '#', k - i - 1, c);
                    }
                    k
                },
                None => {
                    assert(!has_char(rest, '#')) by {
                        if has_char(rest, '#') {
                            let c = choose|c: int| 0 <= c < rest.len() && rest[c] == '#';
                            assert(oc@[c + i + 1] == '#');
                        }
                    }
                    oc.len()
                },
            };
            let frag = sub_chars(&oc, i + 1, end);
            assert(frag@ == rest.subrange(0, end - i - 1));
            let mut r = new;
            push_char(&mut r, '#');
            push_chars(&mut r, frag.as_slice());
            r
        },
    }
}

impl Request {
    /// Creates a new HTTP `Request`.
    ///
    /// This is only the request's data, it is not sent yet.
    pub fn new(url: &str) -> (r: Request)
        ensures
            r@ == new_view(url@),
    {
        let (https, host, resource) = parse_url(url.to_owned());
        let r = Request {
            host,
            resource,
            headers: Fields::new(),
            query: Fields::new(),
            timeout: None,
            max_redirects: 100,
            https,
            redirects: Vec::new(),
        };
        assert(r@.redirects =~= Seq::<Hop>::empty());
        r
    }

    /// Adds a header to the request, replacing an earlier one of the same
    /// name.
    pub fn with_header(self, key: &str, value: &str) -> (r: Request)
        ensures
            r@ == (RequestView { headers: insert_entry(self@.headers, key@, value@), ..self@ }),
    {
        let Request { host, resource, headers, query, timeout, max_redirects, https, redirects } =
            self;
        let headers = headers.insert(key.to_owned(), value.to_owned());
        Request { host, resource, headers, query, timeout, max_redirects, https, redirects }
    }

    /// Adds a query parameter to the URL, replacing an earlier one of the
    /// same key.
    pub fn with_query(self, key: &str, value: &str) -> (r: Request)
        ensures
            r@ == (RequestView { query: insert_entry(self@.query, key@, value@), ..self@ }),
    {
        let Request { host, resource, headers, query, timeout, max_redirects, https, redirects } =
            self;
        let query = query.insert(key.to_owned(), value.to_owned());
        Request { host, resource, headers, query, timeout, max_redirects, https, redirects }
    }

    /// Sets the request timeout in seconds.
    pub fn with_timeout(self, timeout: u64) -> (r: Request)
        ensures
            r@ == (RequestView { timeout: Some(timeout), ..self@ }),
    {
        let Request { host, resource, headers, query, timeout: _, max_redirects, https, redirects } =
            self;
        Request { host, resource, headers, query, timeout: Some(timeout), max_redirects, https, redirects }
    }

    /// Sets how many redirections are followed before giving up; 100 by
    /// default.
    pub fn with_max_redirects(self, max_redirects: usize) -> (r: Request)
        ensures
            r@ == (RequestView { max_redirects: max_redirects as nat, ..self@ }),
    {
        let Request { host, resource, headers, query, timeout, max_redirects: _, https, redirects } =
            self;
        Request { host, resource, headers, query, timeout, max_redirects, https, redirects }
    }

    /// The `host:port` that the request goes to.
    pub fn host(&self) -> (r: &URL)
        ensures
            r@ == self@.host,
    {
        &self.host
    }

    /// The resource: path, query and fragment.
    pub fn resource(&self) -> (r: &URL)
        ensures
            r@ == self@.resource,
    {
        &self.resource
    }

    /// Whether the request goes over a secure connection.
    pub fn is_https(&self) -> (r: bool)
        ensures
            r == self@.https,
    {
        self.https
    }

    /// The timeout in seconds set on the request, if any.
    pub fn timeout(&self) -> (r: Option<u64>)
        ensures
            r == self@.timeout,
    {
        self.timeout
    }

    /// How many redirections are followed at most.
    pub fn max_redirects(&self) -> (r: usize)
        ensures
            r == self@.max_redirects,
    {
        self.max_redirects
    }

    /// The request as it goes over the wire, ready to be sent to the server.
    pub fn as_bytes(&self) -> (r: Vec<u8>)
        ensures
            r@ == encode_utf8(request_text(self@)),
    {
        let mut http = String::new();
        let get_w: [char; 4] = ['G', 'E', 'T', ' '];
        push_chars(&mut http, &get_w);
        push_text(&mut http, self.resource.as_str());
        let rc = chars_of(self.resource.as_str());
        let has_query = contains_char(&rc, '?');
        let ghost start = http@;
        let ghost q = self@.query;
        let n = self.query.len();
        let mut i: usize = 0;
        while i < n
            invariant
                n == q.len(),
                q == self.query.entries(),
                rc@ == self.resource@,
                has_query == has_char(rc@, '?'),
                i <= n,
                http@ == start + query_suffix(self.resource@, q.take(i as int)),
            decreases n - i,
        {
            let (k, v) = self.query.entry(i);
            let sep = if i == 0 && !has_query {
                '?'
            } else {
                '&'
            };
            push_char(&mut http, sep);
            let ek = url_encode(k.as_str());
            push_text(&mut http, ek.as_str());
            push_char(&mut http, '=');
            let ev = url_encode(v.as_str());
            push_text(&mut http, ev.as_str());
            proof {
                let t = q.take(i + 1);
                assert(t.drop_last() =~= q.take(i as int));
                assert(t.last() == q[i as int]);
            }
            i += 1;
            assert(http@ =~= start + query_suffix(self.resource@, q.take(i as int)));
        }
        assert(q.take(n as int) =~= q);
        let vh: [char; 17] = [
            ' ', 'H', 'T', 'T', 'P', '/', '1', '.', '1', '\r', '\n', 'H', 'o', 's', 't', ':', ' ',
        ];
        push_chars(&mut http, &vh);
        push_text(&mut http, self.host.as_str());
        let nl: [char; 2] = ['\r', '\n'];
        push_chars(&mut http, &nl);
        let ghost start2 = http@;
        let ghost h = self@.headers;
        let m = self.headers.len();
        let mut j: usize = 0;
        while j < m
            invariant
                m == h.len(),
                h == self.headers.entries(),
                j <= m,
                http@ == start2 + header_lines(h.take(j as int)),
            decreases m - j,
        {
            let (k, v) = self.headers.entry(j);
            push_text(&mut http, k.as_str());
            push_char(&mut http, ':');
            push_char(&mut http, ' ');
            push_text(&mut http, v.as_str());
            push_char(&mut http, '\r');
            push_char(&mut http, '\n');
            proof {
                let t = h.take(j + 1);
                assert(t.drop_last() =~= h.take(j as int));
                assert(t.last() == h[j as int]);
            }
            j += 1;
            assert(http@ =~= start2 + header_lines(h.take(j as int)));
        }
        assert(h.take(m as int) =~= h);
        push_char(&mut http, '\r');
        push_char(&mut http, '\n');
        assert(http@ =~= request_text(self@));
        http.as_str().as_bytes_vec()
    }

    /// Returns the redirected version of this request, unless the
    /// redirection limit was passed or an infinite redirection loop was
    /// detected.
    pub fn redirect_to(self, url: URL) -> (r: Result<Request, Error>)
        ensures
            redirect_result(self@, url@, r),
    {
        let ghost v = self@;
        let Request {
            mut host,
            mut resource,
            headers,
            query,
            timeout,
            max_redirects,
            mut https,
            mut redirects,
        } = self;
        let uc = chars_of(url.as_str());
        let old_hop = (https, host.clone(), resource.clone());
        if contains_scheme(&uc) {
            let (new_https, new_host, new_resource) = parse_url(url);
            let new_resource = inherit_fragment(new_resource, &resource);
            redirects.push(old_hop);
            https = new_https;
            resource = new_resource;
            host = new_host;
        } else {
            let new_resource = inherit_fragment(url, &resource);
            redirects.push(old_hop);
            resource = new_resource;
        }
        let req = Request { host, resource, headers, query, timeout, max_redirects, https, redirects };
        let ghost n = redirect_view(v, url@);
        assert(req@.redirects =~= n.redirects);
        assert(req@ == n);
        if req.redirects.len() > req.max_redirects {
            return Err(Error::TooManyRedirections);
        }
        let mut i: usize = 0;
        while i < req.redirects.len()
            invariant
                req@ == n,
                n == redirect_view(self@, url@),
                !n.too_many_hops(),
                i <= req.redirects.len(),
                forall|j: int| 0 <= j < i ==> n.redirects[j] != n.hop(),
            decreases req.redirects.len() - i,
        {
            let h = &req.redirects[i];
            assert(n.redirects[i as int] == hop_view(req.redirects@[i as int]));
            if h.0 == req.https && h.1 == req.host && h.2 == req.resource {
                assert(n.redirects[i as int] == n.hop());
                return Err(Error::InfiniteRedirectionLoop);
            }
            i += 1;
        }
        Ok(req)
    }

    /// How many redirections led to this request.
    pub fn redirect_count(&self) -> (r: usize)
        ensures
            r == self@.redirects.len(),
    {
        self.redirects.len()
    }
}

impl Clone for Request {
    fn clone(&self) -> (r: Request)
        ensures
            r@ == self@,
    {
        let mut redirects: Vec<(bool, URL, URL)> = Vec::new();
        let mut i: usize = 0;
        while i < self.redirects.len()
            invariant
                i <= self.redirects.len(),
                redirects@.map_values(|h: (bool, String, String)| hop_view(h)) == self@.redirects.take(
                    i as int,
                ),
            decreases self.redirects.len() - i,
        {
            let h = &self.redirects[i];
            let ghost before = redirects@;
            redirects.push((h.0, h.1.clone(), h.2.clone()));
            assert(redirects@ =~= before.push(self.redirects@[i as int]));
            assert(self@.redirects.take(i + 1) =~= self@.redirects.take(i as int).push(
                self@.redirects[i as int],
            ));
            i += 1;
            assert(redirects@.map_values(|h: (bool, String, String)| hop_view(h))
                =~= self@.redirects.take(i as int));
        }
        let r = Request {
            host: self.host.clone(),
            resource: self.resource.clone(),
            headers: self.headers.clone(),
            query: self.query.clone(),
            timeout: self.timeout,
            max_redirects: self.max_redirects,
            https: self.https,
            redirects,
        };
        assert(self@.redirects.take(i as int) =~= self@.redirects);
        r
    }
}

/// Alias for [`Request::new`].
pub fn get(url: &str) -> (r: Request)
    ensures
        r@ == new_view(url@),
{
    Request::new(url)
}

} // verus!

verus! {

/// Each redirection adds exactly one hop to the history and keeps the limit;
/// so a request that has already followed as many hops as it allows fails
/// with too many redirections on the next one, whatever its target.
pub proof fn lemma_redirect_limit(v: RequestView, url: Seq<char>)
    ensures
        redirect_view(v, url).redirects.len() == v.redirects.len() + 1,
        redirect_view(v, url).max_redirects == v.max_redirects,
        redirect_view(v, url).too_many_hops() <==> v.redirects.len() >= v.max_redirects,
{
}

/// Going from `A` to `B` and back to `A` is caught as a loop: either the
/// first hop already comes back to `A`, or the second one does, and neither
/// passes the default limit. (A fragment that only `B` has is carried back
/// to `A`, which makes a new location; that case is left out.)
pub proof fn lemma_redirect_cycle(url_a: Seq<char>, url_b: Seq<char>)
    requires
        has_scheme(url_a),
        has_scheme(url_b),
        has_char(spec_resource(url_a), '#') || !has_char(spec_resource(url_b), '#'),
    ensures
        ({
            let v0 = new_view(url_a);
            let v1 = redirect_view(v0, url_b);
            let v2 = redirect_view(v1, url_a);
            !v1.too_many_hops() && !v2.too_many_hops() && (v1.revisits() || v2.revisits())
        }),
{
    let v0 = new_view(url_a);
    let v1 = redirect_view(v0, url_b);
    let v2 = redirect_view(v1, url_a);
    let ra = spec_resource(url_a);
    let rb = spec_resource(url_b);
    if !has_char(ra, '#') {
        assert(fragment_of(ra) is None);
        assert(v1.resource == rb);
    }
    assert(v2.resource == ra);
    assert(v2.redirects[0] == v0.hop());
    assert(v2.hop() == v0.hop());
}

/// Bouncing between two full URLs `A` and `B` is caught as a loop by the
/// third hop at the latest, whatever fragments they carry.
pub proof fn lemma_redirect_bounce_caught(url_a: Seq<char>, url_b: Seq<char>)
    requires
        has_scheme(url_a),
        has_scheme(url_b),
    ensures
        ({
            let v0 = new_view(url_a);
            let v1 = redirect_view(v0, url_b);
            let v2 = redirect_view(v1, url_a);
            let v3 = redirect_view(v2, url_b);
            &&& !v3.too_many_hops()
            &&& v1.revisits() || v2.revisits() || v3.revisits()
        }),
{
    let ra = spec_resource(url_a);
    let rb = spec_resource(url_b);
    if has_char(ra, '#') || !has_char(rb, '#') {
        lemma_redirect_cycle(url_a, url_b);
    } else {
        let v0 = new_view(url_a);
        let v1 = redirect_view(v0, url_b);
        let v2 = redirect_view(v1, url_a);
        let v3 = redirect_view(v2, url_b);
        assert(v1.resource == rb);
        assert(v3.resource == rb);
        assert(v3.redirects[1] == v1.hop());
        assert(v3.hop() == v1.hop());
    }
}

/// A target without a fragment takes the old resource's fragment; one with
/// its own fragment keeps it.
pub proof fn lemma_fragment_inherited(new: Seq<char>, old: Seq<char>)
    ensures
        has_char(new, '#') ==> with_fragment(new, old) == new,
        !has_char(new, '#') && fragment_of(old) is Some ==> with_fragment(new, old) == new
            + seq!['#'] + fragment_of(old)->0,
        !has_char(new, '#') && fragment_of(old) is None ==> with_fragment(new, old) == new,
{
}

} // verus!

verus! {

/// A URL `scheme://host/path`, parsed into a request and serialized with no
/// query parameters and no headers added, puts exactly `path` in its
/// request line: `GET path HTTP/1.1`, then the host header and the empty
/// line.
pub proof fn lemma_request_line_round_trip(scheme: Seq<char>, host: Seq<char>, path: Seq<char>)
    requires
        !has_char(scheme, '/'),
        !has_char(host, '/'),
        path.len() > 0,
        path[0] == '/',
    ensures
        ({
            let v = new_view(scheme + seq![':', '/', '/'] + host + path);
            &&& target(v) == path
            &&& request_text(v) == get_word() + path + version_and_host() + v.host + crlf()
                + crlf()
        }),
{
    let v = new_view(scheme + seq![':', '/', '/'] + host + path);
    crate::url::lemma_resource_of_url(scheme, host, path);
    assert(query_suffix(v.resource, v.query) =~= Seq::<char>::empty());
    assert(header_lines(v.headers) =~= Seq::<char>::empty());
    assert(target(v) =~= path);
}

} // verus!

use vstd::prelude::*;
use crate::text::{chars_of, push_char};

verus! {

/// A URL, as the text the caller wrote.
#[allow(clippy::upper_case_acronyms)]
pub type URL = String;

/// Number of slashes in `s`.
pub open spec fn slash_count(s: Seq<char>) -> nat
    decreases s.len(),
{
    if s.len() == 0 {
        0
    } else {
        slash_count(s.drop_last()) + if s.last() == '/' { 1nat } else { 0nat }
    }
}

/// The characters that stand after the second slash and before the third:
/// the `host[:port]` part of `scheme://host[:port]/path`.
pub open spec fn host_chars(s: Seq<char>) -> Seq<char>
    decreases s.len(),
{
    if s.len() == 0 {
        Seq::empty()
    } else if s.last() != '/' && slash_count(s.drop_last()) == 2 {
        host_chars(s.drop_last()).push(s.last())
    } else {
        host_chars(s.drop_last())
    }
}

/// Everything from the third slash on, that slash included.
pub open spec fn resource_chars(s: Seq<char>) -> Seq<char>
    decreases s.len(),
{
    if s.len() == 0 {
        Seq::empty()
    } else if slash_count(s) >= 3 {
        resource_chars(s.drop_last()).push(s.last())
    } else {
        resource_chars(s.drop_last())
    }
}

/// A slash count, with three standing for three or more.
spec fn capped(n: nat) -> nat {
    if n >= 3 {
        3
    } else {
        n
    }
}

pub open spec fn https_prefix() -> Seq<char> {
    seq!['h', 't', 't', 'p', 's', ':', '/', '/']
}

/// Whether `s` starts with `https://`.
pub open spec fn is_https(s: Seq<char>) -> bool {
    s.len() >= 8 && s.subrange(0, 8) == https_prefix()
}

pub open spec fn has_char(s: Seq<char>, c: char) -> bool {
    exists|i: int| 0 <= i < s.len() && s[i] == c
}

/// The default port of the scheme, as it is appended to a host.
pub open spec fn default_port(https: bool) -> Seq<char> {
    if https {
        seq![':', '4', '4', '3']
    } else {
        seq![':', '8', '0']
    }
}

/// `host:port`, with the scheme's default port when none is given.
pub open spec fn spec_host_port(s: Seq<char>) -> Seq<char> {
    let h = host_chars(s);
    if has_char(h, ':') {
        h
    } else {
        h + default_port(is_https(s))
    }
}

/// The resource, `/` when the URL has none.
pub open spec fn spec_resource(s: Seq<char>) -> Seq<char> {
    let r = resource_chars(s);
    if r.len() == 0 {
        seq!['/']
    } else {
        r
    }
}

/// Whether `c` occurs in `s`.
pub(crate) fn contains_char(s: &Vec<char>, c: char) -> (r: bool)
    ensures
        r == has_char(s@, c),
{
    let mut i: usize = 0;
    while i < s.len()
        invariant
            i <= s.len(),
            forall|j: int| 0 <= j < i ==> s@[j] != c,
        decreases s.len() - i,
    {
        if s[i] == c {
            return true;
        }
        i += 1;
    }
    false
}

/// Whether the text starts with `https://`.
fn starts_with_https(s: &Vec<char>) -> (r: bool)
    ensures
        r == is_https(s@),
{
    if s.len() < 8 {
        return false;
    }
    let p: [char; 8] = ['h', 't', 't', 'p', 's', ':', '/', '/'];
    let mut i: usize = 0;
    while i < 8
        invariant
            s.len() >= 8,
            i <= 8,
            p@ == https_prefix(),
            forall|j: int| 0 <= j < i ==> s@[j] == p@[j],
        decreases 8 - i,
    {
        if s[i] != p[i] {
            assert(s@.subrange(0, 8)[i as int] != https_prefix()[i as int]);
            return false;
        }
        i += 1;
    }
    assert(s@.subrange(0, 8) =~= https_prefix());
    true
}

/// Splits a URL into whether it is secure, its `host:port` and its resource.
pub fn parse_url(url: URL) -> (r: (bool, URL, URL))
    ensures
        r.0 == is_https(url@),
        r.1@ == spec_host_port(url@),
        r.2@ == spec_resource(url@),
{
    let cs = chars_of(url.as_str());
    let mut first = URL::new();
    let mut second = URL::new();
    let mut slashes: usize = 0;
    let mut i: usize = 0;
    while i < cs.len()
        invariant
            cs@ == url@,
            i <= cs.len(),
            slashes as nat == capped(slash_count(cs@.take(i as int))),
            first@ == host_chars(cs@.take(i as int)),
            second@ == resource_chars(cs@.take(i as int)),
        decreases cs.len() - i,
    {
        let c = cs[i];
        let ghost pre = cs@.take(i as int);
        assert(cs@.take(i + 1).drop_last() == pre);
        if c == '/' {
            if slashes < 3 {
                slashes += 1;
            }
        } else if slashes == 2 {
            push_char(&mut first, c);
        }
        if slashes >= 3 {
            push_char(&mut second, c);
        }
        i += 1;
    }
    assert(cs@.take(cs.len() as int) == cs@);
    if second.as_str().is_empty() {
        push_char(&mut second, '/');
    }
    let https = starts_with_https(&cs);
    let fc = chars_of(first.as_str());
    if !contains_char(&fc, ':') {
        if https {
            push_char(&mut first, ':');
            push_char(&mut first, '4');
            push_char(&mut first, '4');
            push_char(&mut first, '3');
        } else {
            push_char(&mut first, ':');
            push_char(&mut first, '8');
            push_char(&mut first, '0');
        }
    }
    (https, first, second)
}

} // verus!

verus! {

/// Slashes of a concatenation add up.
pub proof fn lemma_slash_count_concat(a: Seq<char>, b: Seq<char>)
    ensures
        slash_count(a + b) == slash_count(a) + slash_count(b),
    decreases b.len(),
{
    if b.len() == 0 {
        assert(a + b =~= a);
    } else {
        lemma_slash_count_concat(a, b.drop_last());
        assert((a + b).drop_last() =~= a + b.drop_last());
    }
}

/// Text without a slash counts none.
pub proof fn lemma_no_slash(s: Seq<char>)
    requires
        !has_char(s, '/'),
    ensures
        slash_count(s) == 0,
    decreases s.len(),
{
    if s.len() > 0 {
        assert(!has_char(s.drop_last(), '/')) by {
            if has_char(s.drop_last(), '/') {
                let i = choose|i: int| 0 <= i < s.len() - 1 && s.drop_last()[i] == '/';
                assert(s[i] == '/');
            }
        }
        lemma_no_slash(s.drop_last());
        assert(s[s.len() - 1] != '/');
    }
}

/// Before the third slash there is no resource.
proof fn lemma_resource_empty(s: Seq<char>)
    requires
        slash_count(s) < 3,
    ensures
        resource_chars(s) == Seq::<char>::empty(),
    decreases s.len(),
{
    if s.len() > 0 {
        lemma_resource_empty(s.drop_last());
    }
}

/// After a prefix with two slashes, a path that starts with a slash is the
/// resource, one character at a time.
proof fn lemma_resource_of_path(pre: Seq<char>, path: Seq<char>, k: int)
    requires
        slash_count(pre) == 2,
        path.len() > 0,
        path[0] == '/',
        0 <= k <= path.len(),
    ensures
        resource_chars(pre + path.take(k)) == path.take(k),
    decreases k,
{
    if k == 0 {
        assert(pre + path.take(0) =~= pre);
        lemma_resource_empty(pre);
        assert(path.take(0) =~= Seq::<char>::empty());
    } else {
        let s = pre + path.take(k);
        lemma_resource_of_path(pre, path, k - 1);
        assert(s.drop_last() =~= pre + path.take(k - 1));
        lemma_slash_count_concat(pre, path.take(k));
        let t = path.take(k);
        assert(t =~= seq![t[0]] + t.drop_first());
        lemma_slash_count_concat(seq![t[0]], t.drop_first());
        assert(seq![t[0]].drop_last() =~= Seq::<char>::empty());
        assert(path.take(k) =~= path.take(k - 1).push(path[k - 1]));
    }
}

/// In `scheme://host/path`, with no slash in the scheme or the host, the
/// resource is the path.
pub proof fn lemma_resource_of_url(scheme: Seq<char>, host: Seq<char>, path: Seq<char>)
    requires
        !has_char(scheme, '/'),
        !has_char(host, '/'),
        path.len() > 0,
        path[0] == '/',
    ensures
        spec_resource(scheme + seq![':', '/', '/'] + host + path) == path,
{
    let d = seq![':', '/', '/'];
    let pre = scheme + d + host;
    lemma_no_slash(scheme);
    lemma_no_slash(host);
    lemma_slash_count_concat(scheme, d);
    lemma_slash_count_concat(scheme + d, host);
    assert(d.drop_last() =~= seq![':', '/']);
    assert(d.drop_last().drop_last() =~= seq![':']);
    assert(d.drop_last().drop_last().drop_last() =~= Seq::<char>::empty());
    assert(slash_count(d) == 2) by {
        reveal_with_fuel(slash_count, 4);
    }
    lemma_resource_of_path(pre, path, path.len() as int);
    assert(path.take(path.len() as int) =~= path);
    assert(scheme + d + host + path == pre + path);
}

} // verus!

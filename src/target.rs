//! The target's origin, and the requests that probes make against it.

use vstd::prelude::*;
use crate::json::{decimal, push_decimal};
use crate::probe::{Method, Probe};

verus! {

/// A configuration that cannot start a run.
#[derive(Debug, Clone, Copy, PartialEq, Eq, Structural)]
pub enum ConfigError {
    InvalidOrigin,
    DuplicateName,
}

/// A probe that cannot be turned into a request.
#[derive(Debug, Clone, Copy, PartialEq, Eq, Structural)]
pub enum ProbeError {
    MalformedPath,
}

pub open spec fn is_host_char(c: char) -> bool {
    ('a' <= c && c <= 'z') || ('A' <= c && c <= 'Z') || ('0' <= c && c <= '9') || c == '.'
        || c == '-' || c == '_'
}

pub open spec fn is_digit_char(c: char) -> bool {
    '0' <= c && c <= '9'
}

/// The number written by the decimal digits `d`.
pub open spec fn digits_value(d: Seq<char>) -> nat
    decreases d.len(),
{
    if d.len() == 0 {
        0
    } else {
        digits_value(d.drop_last()) * 10 + (d.last() as int - '0' as int) as nat
    }
}

/// One to five digits naming a port from 1 to 65535.
pub open spec fn valid_port_text(d: Seq<char>) -> bool {
    &&& 1 <= d.len() <= 5
    &&& forall|i: int| 0 <= i < d.len() ==> is_digit_char(#[trigger] d[i])
    &&& 1 <= digits_value(d) <= 65535
}

/// The first index at or after `i` that does not hold a host character.
pub open spec fn host_end(a: Seq<char>, i: int) -> int
    decreases a.len() - i,
{
    if 0 <= i < a.len() && is_host_char(a[i]) {
        host_end(a, i + 1)
    } else {
        i
    }
}

/// `c` is `l`, or its upper-case form where `l` is a lower-case ASCII letter.
pub open spec fn ascii_ci_eq(c: char, l: char) -> bool {
    c == l || ('a' <= l && l <= 'z' && c as u32 == l as u32 - 32)
}

/// `s` starts with `p`, ignoring ASCII case.
pub open spec fn has_prefix_ci(s: Seq<char>, p: Seq<char>) -> bool {
    p.len() <= s.len() && forall|i: int| 0 <= i < p.len() ==> ascii_ci_eq(#[trigger] s[i], p[i])
}

/// Length of the scheme part, `https://` or `http://` in any case; zero for
/// neither.
pub open spec fn scheme_len(s: Seq<char>) -> int {
    if has_prefix_ci(s, "https://"@) {
        8
    } else if has_prefix_ci(s, "http://"@) {
        7
    } else {
        0
    }
}

/// Characters of a bracketed IP literal: hex digits, `:` and `.`.
pub open spec fn is_literal_char(c: char) -> bool {
    ('0' <= c && c <= '9') || ('a' <= c && c <= 'f') || ('A' <= c && c <= 'F') || c == ':'
        || c == '.'
}

/// The first index at or after `i` that does not hold a literal character.
pub open spec fn literal_end(a: Seq<char>, i: int) -> int
    decreases a.len() - i,
{
    if 0 <= i < a.len() && is_literal_char(a[i]) {
        literal_end(a, i + 1)
    } else {
        i
    }
}

/// Length of the host at the start of `a`: a bracketed IP literal such as
/// `[::1]`, or a run of host characters; zero where neither is there.
pub open spec fn host_len(a: Seq<char>) -> int {
    if a.len() > 0 && a[0] == '[' {
        let c = literal_end(a, 1);
        if 1 < c < a.len() && a[c] == ']' {
            c + 1
        } else {
            0
        }
    } else {
        host_end(a, 0)
    }
}

/// A host name of host characters, or a bracketed IP literal.
pub open spec fn valid_host(h: Seq<char>) -> bool {
    ||| h.len() > 0 && forall|i: int| 0 <= i < h.len() ==> is_host_char(#[trigger] h[i])
    ||| {
        &&& h.len() > 2
        &&& h[0] == '['
        &&& h.last() == ']'
        &&& forall|i: int| 1 <= i < h.len() - 1 ==> is_literal_char(#[trigger] h[i])
    }
}

/// What follows the scheme, without one trailing `/`.
pub open spec fn authority(s: Seq<char>) -> Seq<char> {
    let rest = s.skip(scheme_len(s));
    if rest.len() > 0 && rest.last() == '/' {
        rest.drop_last()
    } else {
        rest
    }
}

/// `http://` or `https://` in any case, a host (letters, digits, `.`, `-`
/// and `_`, or a bracketed IP literal), an optional `:port`, and an optional
/// trailing `/`.
pub open spec fn valid_origin(s: Seq<char>) -> bool {
    let a = authority(s);
    let h = host_len(a);
    &&& scheme_len(s) > 0
    &&& h > 0
    &&& h == a.len() || (a[h] == ':' && valid_port_text(a.skip(h + 1)))
}

/// The base address of the target service.
#[derive(Debug)]
pub struct Origin {
    pub secure: bool,
    pub host: String,
    pub port: Option<u16>,
}

impl Origin {
    pub open spec fn wf(&self) -> bool {
        &&& valid_host(self.host@)
        &&& self.port matches Some(p) ==> p > 0
    }
}

/// The origin as text: scheme, host and the port if one was given.
pub open spec fn origin_text(o: Origin) -> Seq<char> {
    (if o.secure {
        "https://"@
    } else {
        "http://"@
    }) + o.host@ + match o.port {
        Some(p) => ":"@ + decimal(p as nat),
        None => Seq::empty(),
    }
}

/// The origin that `parse_origin` reads from a valid `s`.
pub open spec fn parsed_origin(o: Origin, s: Seq<char>) -> bool {
    let a = authority(s);
    let h = host_len(a);
    &&& o.secure == (scheme_len(s) == 8)
    &&& o.host@ == a.take(h)
    &&& o.port == if h == a.len() {
        None
    } else {
        Some(digits_value(a.skip(h + 1)) as u16)
    }
}

fn starts_with_ci(s: &str, n: usize, p: &str) -> (r: bool)
    requires
        n == s@.len(),
    ensures
        r == has_prefix_ci(s@, p@),
{
    let m = p.unicode_len();
    if m > n {
        return false;
    }
    let mut i: usize = 0;
    while i < m
        invariant
            m == p@.len() <= n == s@.len(),
            i <= m,
            forall|j: int| 0 <= j < i ==> ascii_ci_eq(#[trigger] s@[j], p@[j]),
        decreases m - i,
    {
        let c = s.get_char(i);
        let l = p.get_char(i);
        if !(c == l || ('a' <= l && l <= 'z' && c as u32 == l as u32 - 32)) {
            return false;
        }
        i = i + 1;
    }
    true
}

fn char_is_host(c: char) -> (r: bool)
    ensures
        r == is_host_char(c),
{
    ('a' <= c && c <= 'z') || ('A' <= c && c <= 'Z') || ('0' <= c && c <= '9') || c == '.'
        || c == '-' || c == '_'
}

spec fn pow10(k: nat) -> nat
    decreases k,
{
    if k == 0 {
        1
    } else {
        10 * pow10((k - 1) as nat)
    }
}

proof fn lemma_pow10_le(k: nat)
    requires
        k <= 5,
    ensures
        pow10(k) <= 100000,
{
    reveal_with_fuel(pow10, 6);
}

proof fn lemma_host_end_le(a: Seq<char>, i: int)
    requires
        0 <= i <= a.len(),
    ensures
        i <= host_end(a, i) <= a.len(),
        forall|j: int| i <= j < host_end(a, i) ==> is_host_char(#[trigger] a[j]),
    decreases a.len() - i,
{
    if i < a.len() && is_host_char(a[i]) {
        lemma_host_end_le(a, i + 1);
    }
}

fn char_is_literal(c: char) -> (r: bool)
    ensures
        r == is_literal_char(c),
{
    ('0' <= c && c <= '9') || ('a' <= c && c <= 'f') || ('A' <= c && c <= 'F') || c == ':'
        || c == '.'
}

proof fn lemma_literal_end_le(a: Seq<char>, i: int)
    requires
        0 <= i <= a.len(),
    ensures
        i <= literal_end(a, i) <= a.len(),
        forall|j: int| i <= j < literal_end(a, i) ==> is_literal_char(#[trigger] a[j]),
    decreases a.len() - i,
{
    if i < a.len() && is_literal_char(a[i]) {
        lemma_literal_end_le(a, i + 1);
    }
}

/// Finds where the host that starts at `start` ends.
fn scan_host(s: &str, start: usize, end: usize) -> (h: usize)
    requires
        start <= end <= s@.len(),
    ensures
        start <= h <= end,
        h - start == host_len(s@.subrange(start as int, end as int)),
        h > start ==> valid_host(s@.subrange(start as int, h as int)),
{
    let ghost a = s@.subrange(start as int, end as int);
    if start < end && s.get_char(start) == '[' {
        assert(a[0] == s@[start as int]);
        let mut c = start + 1;
        while c < end && char_is_literal(s.get_char(c))
            invariant
                start < c <= end <= s@.len(),
                a == s@.subrange(start as int, end as int),
                literal_end(a, 1) == literal_end(a, c - start),
            decreases end - c,
        {
            assert(a[c - start] == s@[c as int]);
            c = c + 1;
        }
        let cl = c - start;
        assert(literal_end(a, cl as int) == cl) by {
            if cl < a.len() {
                assert(a[cl as int] == s@[c as int]);
            }
        }
        proof {
            lemma_literal_end_le(a, 1);
        }
        if c == start + 1 || c == end {
            return start;
        }
        assert(a[cl as int] == s@[c as int]);
        if s.get_char(c) != ']' {
            return start;
        }
        let ghost host = s@.subrange(start as int, c + 1);
        assert(host =~= a.take(cl + 1));
        assert forall|i: int| 1 <= i < host.len() - 1 implies is_literal_char(#[trigger] host[i]) by {
            assert(host[i] == a[i]);
        }
        c + 1
    } else {
        let mut h = start;
        while h < end && char_is_host(s.get_char(h))
            invariant
                start <= h <= end <= s@.len(),
                a == s@.subrange(start as int, end as int),
                host_end(a, 0) == host_end(a, h - start),
            decreases end - h,
        {
            assert(a[h - start] == s@[h as int]);
            h = h + 1;
        }
        let hl = h - start;
        assert(host_end(a, hl as int) == hl) by {
            if hl < a.len() {
                assert(a[hl as int] == s@[h as int]);
            }
        }
        proof {
            lemma_host_end_le(a, 0);
        }
        let ghost host = s@.subrange(start as int, h as int);
        assert forall|i: int| 0 <= i < host.len() implies is_host_char(#[trigger] host[i]) by {
            assert(host[i] == a[i]);
        }
        h
    }
}

/// Reads the target's base address.
pub fn parse_origin(s: &str) -> (r: Result<Origin, ConfigError>)
    ensures
        r is Ok <==> valid_origin(s@),
        r matches Ok(o) ==> parsed_origin(o, s@) && o.wf(),
{
    proof {
        reveal_strlit("https://");
        reveal_strlit("http://");
    }
    let n = s.unicode_len();
    let scheme: usize = if starts_with_ci(s, n, "https://") {
        8
    } else if starts_with_ci(s, n, "http://") {
        7
    } else {
        return Err(ConfigError::InvalidOrigin);
    };
    assert(scheme_len(s@) == scheme);
    let mut end = n;
    if end > scheme && s.get_char(end - 1) == '/' {
        end = end - 1;
    }
    let ghost a = s@.subrange(scheme as int, end as int);
    assert(a =~= authority(s@));
    let h = scan_host(s, scheme, end);
    let hl = h - scheme;
    if hl == 0 {
        return Err(ConfigError::InvalidOrigin);
    }
    let host = s.substring_char(scheme, h);
    assert(host@ =~= a.take(hl as int));
    let port = if h == end {
        None
    } else {
        assert(a[hl as int] == s@[h as int]);
        if s.get_char(h) != ':' {
            return Err(ConfigError::InvalidOrigin);
        }
        let ghost d = a.skip(hl + 1);
        let count = end - (h + 1);
        if count < 1 || count > 5 {
            return Err(ConfigError::InvalidOrigin);
        }
        let mut v: u64 = 0;
        let mut k: usize = 0;
        while k < count
            invariant
                count == d.len() <= 5,
                a == authority(s@),
                host_len(a) == hl < a.len(),
                d == a.skip(hl + 1),
                d == s@.subrange(h + 1, end as int),
                h + 1 + count == end <= s@.len(),
                k <= count,
                forall|j: int| 0 <= j < k ==> is_digit_char(#[trigger] d[j]),
                v as nat == digits_value(d.take(k as int)),
                v < pow10(k as nat),
            decreases count - k,
        {
            let c = s.get_char(h + 1 + k);
            assert(c == d[k as int]);
            if !('0' <= c && c <= '9') {
                assert(!valid_port_text(d));
                return Err(ConfigError::InvalidOrigin);
            }
            proof {
                lemma_pow10_le(k as nat);
                assert(d.take(k + 1).drop_last() =~= d.take(k as int));
            }
            v = v * 10 + (c as u64 - '0' as u64);
            k = k + 1;
        }
        assert(d.take(k as int) =~= d);
        if v < 1 || v > 65535 {
            return Err(ConfigError::InvalidOrigin);
        }
        Some(v as u16)
    };
    let o = Origin { secure: scheme == 8, host: String::from_str(host), port };
    assert(o.host@ == a.take(hl as int));
    Ok(o)
}

/// A path that starts with `/` and holds only visible ASCII characters,
/// without `#`.
pub open spec fn valid_path(p: Seq<char>) -> bool {
    &&& p.len() > 0
    &&& p[0] == '/'
    &&& forall|i: int| 0 <= i < p.len() ==> is_path_char(#[trigger] p[i])
}

pub open spec fn is_path_char(c: char) -> bool {
    '!' <= c && c <= '~' && c != '#'
}

/// One request, ready to be sent: the target's origin joined with the
/// probe's path, and the probe's payload as the body.
#[derive(Debug)]
pub struct ProbeRequest {
    pub method: Method,
    pub url: String,
    pub body: Option<String>,
}

/// What `build_request` makes of a probe whose path is valid.
pub open spec fn request_of(origin: Origin, probe: Probe, q: ProbeRequest) -> bool {
    &&& q.method == probe.method
    &&& q.url@ == origin_text(origin) + probe.path@
    &&& q.body == probe.payload
}

impl Origin {
    /// The origin as text, as requests address it.
    pub fn text(&self) -> (r: String)
        ensures
            r@ == origin_text(*self),
    {
        let mut out = if self.secure {
            String::from_str("https://")
        } else {
            String::from_str("http://")
        };
        out.append(self.host.as_str());
        if let Some(p) = self.port {
            out.append(":");
            push_decimal(&mut out, p as u64);
        }
        assert(out@ =~= origin_text(*self));
        out
    }
}

fn path_is_valid(p: &str) -> (r: bool)
    ensures
        r == valid_path(p@),
{
    let n = p.unicode_len();
    if n == 0 || p.get_char(0) != '/' {
        return false;
    }
    let mut i: usize = 0;
    while i < n
        invariant
            n == p@.len(),
            i <= n,
            forall|j: int| 0 <= j < i ==> is_path_char(#[trigger] p@[j]),
        decreases n - i,
    {
        let c = p.get_char(i);
        if !('!' <= c && c <= '~' && c != '#') {
            return false;
        }
        i = i + 1;
    }
    true
}

/// Builds the request of one probe; a malformed path gives an error, not a
/// request.
pub fn build_request(origin: &Origin, probe: &Probe) -> (r: Result<ProbeRequest, ProbeError>)
    ensures
        r is Ok <==> valid_path(probe.path@),
        r matches Ok(q) ==> request_of(*origin, *probe, q),
{
    if !path_is_valid(probe.path.as_str()) {
        return Err(ProbeError::MalformedPath);
    }
    let mut url = origin.text();
    url.append(probe.path.as_str());
    let body = match &probe.payload {
        Some(b) => Some(b.clone()),
        None => None,
    };
    Ok(ProbeRequest { method: probe.method, url, body })
}

} // verus!

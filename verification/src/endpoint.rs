use vstd::prelude::*;

use crate::env::{decimal, decimal_chars, is_digit, lemma_decimal};
use crate::json::{json_member_str, json_str_member};
use crate::text::{chars_of, copy_range, has_prefix, string_of, trim, trim_chars};

verus! {

pub open spec fn http_scheme() -> Seq<char> {
    seq!['h', 't', 't', 'p', ':', '/', '/']
}

pub open spec fn loopback() -> Seq<char> {
    seq!['1', '2', '7', '.', '0', '.', '0', '.', '1']
}

pub open spec fn admin_path() -> Seq<char> {
    seq!['/', 'a', 'd', 'm', 'i', 'n', '/']
}

/// `127.0.0.1:<port>`.
pub open spec fn loopback_host_port(port: u16) -> Seq<char> {
    loopback() + seq![':'] + decimal(port as nat)
}

/// `http://127.0.0.1:<port>/admin/`, where the embedded admin console lives.
pub open spec fn admin_url(port: u16) -> Seq<char> {
    http_scheme() + loopback_host_port(port) + admin_path()
}

/// `s` with the suffix `p` removed as often as it ends with it (`str::trim_end_matches`).
pub open spec fn trim_suffixes(s: Seq<char>, p: Seq<char>) -> Seq<char>
    decreases s.len(),
{
    if p.len() > 0 && p.is_suffix_of(s) {
        trim_suffixes(s.take(s.len() - p.len()), p)
    } else {
        s
    }
}

/// `s` with the prefix `p` removed as often as it starts with it (`str::trim_start_matches`).
pub open spec fn trim_prefixes(s: Seq<char>, p: Seq<char>) -> Seq<char>
    decreases s.len(),
{
    if p.len() > 0 && p.is_prefix_of(s) {
        trim_prefixes(s.skip(p.len() as int), p)
    } else {
        s
    }
}

/// The `host:port` that the health check connects to for `admin_url`.
pub open spec fn health_target(admin_url: Seq<char>) -> Seq<char> {
    trim_prefixes(trim_suffixes(admin_url, admin_path()), http_scheme())
}

/// The HTTP request of the health check.
pub open spec fn health_request_text(host_port: Seq<char>) -> Seq<char> {
    "GET /health HTTP/1.1\r\nHost: "@ + host_port + "\r\nConnection: close\r\n\r\n"@
}

pub open spec fn blank_line() -> Seq<char> {
    seq!['\r', '\n', '\r', '\n']
}

pub open spec fn http11_ok() -> Seq<char> {
    seq!['H', 'T', 'T', 'P', '/', '1', '.', '1', ' ', '2', '0', '0']
}

pub open spec fn http10_ok() -> Seq<char> {
    seq!['H', 'T', 'T', 'P', '/', '1', '.', '0', ' ', '2', '0', '0']
}

pub open spec fn status_key() -> Seq<char> {
    seq!['s', 't', 'a', 't', 'u', 's']
}

pub open spec fn ok_word() -> Seq<char> {
    seq!['o', 'k']
}

pub open spec fn occurs_at(s: Seq<char>, p: Seq<char>, i: int) -> bool {
    0 <= i && i + p.len() <= s.len() && s.subrange(i, i + p.len()) == p
}

/// The first position from `i` on where `p` occurs in `s`.
pub open spec fn find_from(s: Seq<char>, p: Seq<char>, i: int) -> Option<int>
    decreases s.len() + 1 - i,
{
    if i < 0 || i + p.len() > s.len() {
        None
    } else if occurs_at(s, p, i) {
        Some(i)
    } else {
        find_from(s, p, i + 1)
    }
}

/// The body of a response that passes the checks made before its JSON is read:
/// the head ends at the first blank line, the status line reads `HTTP/1.1 200`
/// or `HTTP/1.0 200`, and the body, trimmed, ends with `}`. The body comes back
/// trimmed.
pub open spec fn health_body(response: Seq<char>) -> Option<Seq<char>> {
    match find_from(response, blank_line(), 0) {
        None => None,
        Some(i) => {
            let headers = response.take(i);
            let body = trim(response.skip(i + 4));
            if !(http11_ok().is_prefix_of(headers) || http10_ok().is_prefix_of(headers)) {
                None
            } else if !(body.len() > 0 && body.last() == '}') {
                None
            } else {
                Some(body)
            }
        },
    }
}

/// Whether a response reports the backend healthy: it passes [`health_body`]
/// and its JSON body has a member `status` with the string `ok`.
pub open spec fn health_ok(response: Seq<char>) -> bool {
    match health_body(response) {
        None => false,
        Some(body) => json_member_str(body, status_key()) == Some(ok_word()),
    }
}

fn push_all(out: &mut Vec<char>, cs: &Vec<char>)
    ensures
        final(out)@ == old(out)@ + cs@,
{
    let mut i: usize = 0;
    let ghost base = out@;
    while i < cs.len()
        invariant
            i <= cs.len(),
            out@ == base + cs@.take(i as int),
        decreases cs.len() - i,
    {
        out.push(cs[i]);
        assert(cs@.take(i as int).push(cs@[i as int]) =~= cs@.take(i + 1));
        i += 1;
    }
    assert(cs@.take(cs.len() as int) =~= cs@);
}

/// The URL of the admin console for the backend on `port`.
pub fn admin_url_for_port(port: u16) -> (r: String)
    ensures
        r@ == admin_url(port),
{
    let mut out = vec!['h', 't', 't', 'p', ':', '/', '/', '1', '2', '7', '.', '0', '.', '0', '.', '1', ':'];
    let ghost head = out@;
    assert(head =~= http_scheme() + loopback() + seq![':']);
    let digits = decimal_chars(port as u32);
    push_all(&mut out, &digits);
    let tail = vec!['/', 'a', 'd', 'm', 'i', 'n', '/'];
    assert(tail@ =~= admin_path());
    push_all(&mut out, &tail);
    assert(out@ =~= admin_url(port));
    string_of(&out)
}


/// Whether `p` stands in `v` at position `i`.
fn matches_at(v: &Vec<char>, p: &Vec<char>, i: usize) -> (b: bool)
    requires
        i + p.len() <= v.len(),
    ensures
        b == (v@.subrange(i as int, i + p.len()) == p@),
{
    let mut k: usize = 0;
    while k < p.len()
        invariant
            k <= p.len(),
            i + p.len() <= v.len(),
            forall|j: int| 0 <= j < k ==> v@[i + j] == p@[j],
        decreases p.len() - k,
    {
        if v[i + k] != p[k] {
            assert(v@.subrange(i as int, i + p.len())[k as int] != p@[k as int]);
            return false;
        }
        k += 1;
    }
    assert(v@.subrange(i as int, i + p.len()) =~= p@);
    true
}

/// The `host:port` of the backend behind `admin_url`: the URL without its
/// trailing `/admin/` and leading `http://` (each removed as often as it stands there).
pub fn health_host_port(admin_url: &str) -> (r: String)
    ensures
        r@ == health_target(admin_url@),
{
    let v = chars_of(admin_url);
    let suffix = vec!['/', 'a', 'd', 'm', 'i', 'n', '/'];
    assert(suffix@ =~= admin_path());
    let prefix = vec!['h', 't', 't', 'p', ':', '/', '/'];
    assert(prefix@ =~= http_scheme());
    let mut hi: usize = v.len();
    assert(v@.take(hi as int) =~= v@);
    while hi >= 7 && matches_at(&v, &suffix, hi - 7)
        invariant
            hi <= v.len(),
            v@ == admin_url@,
            suffix@ == admin_path(),
            trim_suffixes(v@, admin_path()) == trim_suffixes(v@.take(hi as int), admin_path()),
        decreases hi,
    {
        assert(v@.take(hi as int).subrange(hi - 7, hi as int) =~= v@.subrange(hi - 7, hi as int));
        assert(v@.take(hi as int).take(hi - 7) =~= v@.take(hi - 7));
        hi -= 7;
    }
    if hi >= 7 {
        assert(v@.take(hi as int).subrange(hi - 7, hi as int) =~= v@.subrange(hi - 7, hi as int));
    }
    assert(trim_suffixes(v@, admin_path()) == v@.take(hi as int));
    let mut lo: usize = 0;
    assert(v@.subrange(0, hi as int) =~= v@.take(hi as int));
    while hi - lo >= 7 && matches_at(&v, &prefix, lo)
        invariant
            lo <= hi <= v.len(),
            prefix@ == http_scheme(),
            trim_prefixes(v@.take(hi as int), http_scheme()) == trim_prefixes(
                v@.subrange(lo as int, hi as int),
                http_scheme(),
            ),
        decreases hi - lo,
    {
        assert(v@.subrange(lo as int, hi as int).subrange(0, 7) =~= v@.subrange(lo as int, lo + 7));
        assert(v@.subrange(lo as int, hi as int).skip(7) =~= v@.subrange(lo + 7, hi as int));
        lo += 7;
    }
    if hi - lo >= 7 {
        assert(v@.subrange(lo as int, hi as int).subrange(0, 7) =~= v@.subrange(lo as int, lo + 7));
    }
    let out = copy_range(&v, lo, hi);
    string_of(&out)
}

/// The HTTP request that asks the backend at `host_port` for its health.
pub fn health_request(host_port: &str) -> (r: String)
    ensures
        r@ == health_request_text(host_port@),
{
    let mut request = String::from_str("GET /health HTTP/1.1\r\nHost: ");
    request.append(host_port);
    request.append("\r\nConnection: close\r\n\r\n");
    request
}

/// The trimmed body of a health response that passes the checks made before
/// its JSON is read (see [`health_body`]).
pub fn health_body_of(response: &str) -> (r: Option<String>)
    ensures
        r is None <==> health_body(response@) is None,
        r matches Some(b) ==> health_body(response@) == Some(b@),
{
    let v = chars_of(response);
    let n = v.len();
    let bl = vec!['\r', '\n', '\r', '\n'];
    assert(bl@ =~= blank_line());
    let mut i: usize = 0;
    let mut found = false;
    while !found && n >= 4 && i <= n - 4
        invariant
            i <= n,
            n == v.len(),
            v@ == response@,
            bl@ == blank_line(),
            find_from(v@, blank_line(), 0) == find_from(v@, blank_line(), i as int),
            found ==> i + 4 <= n && occurs_at(v@, blank_line(), i as int),
        decreases n + 1 - i + (if found { 0int } else { 1int }),
    {
        if matches_at(&v, &bl, i) {
            found = true;
        } else {
            i += 1;
        }
    }
    if !found {
        assert(find_from(v@, blank_line(), i as int) is None);
        return None;
    }
    assert(find_from(v@, blank_line(), 0) == Some(i as int));
    let headers = copy_range(&v, 0, i);
    assert(headers@ =~= v@.take(i as int));
    let ok11 = vec!['H', 'T', 'T', 'P', '/', '1', '.', '1', ' ', '2', '0', '0'];
    let ok10 = vec!['H', 'T', 'T', 'P', '/', '1', '.', '0', ' ', '2', '0', '0'];
    assert(ok11@ =~= http11_ok());
    assert(ok10@ =~= http10_ok());
    if !has_prefix(&headers, &ok11) && !has_prefix(&headers, &ok10) {
        return None;
    }
    let rest = copy_range(&v, i + 4, n);
    assert(rest@ =~= v@.skip(i + 4));
    let body = trim_chars(&rest);
    if body.len() == 0 || body[body.len() - 1] != '}' {
        return None;
    }
    Some(string_of(&body))
}

/// Whether the `status` member read from a health body is the string `ok`.
pub fn status_reports_ok(status: Option<String>) -> (r: bool)
    ensures
        r == (status matches Some(s) && s@ == ok_word()),
{
    match status {
        Some(s) => {
            let cs = chars_of(s.as_str());
            let r = cs.len() == 2 && cs[0] == 'o' && cs[1] == 'k';
            if r {
                assert(cs@ =~= ok_word());
            }
            r
        },
        None => false,
    }
}

/// Whether the backend's answer to the health request reports it ready (see [`health_ok`]).
pub fn health_response_ok(response: &str) -> (r: bool)
    ensures
        r == health_ok(response@),
{
    match health_body_of(response) {
        None => false,
        Some(body) => {
            let key = string_of(&vec!['s', 't', 'a', 't', 'u', 's']);
            assert(key@ =~= status_key());
            let status = json_str_member(body.as_str(), key.as_str());
            status_reports_ok(status)
        },
    }
}


/// The health check reaches the very backend that the admin URL names:
/// for the URL of port `p` it targets `127.0.0.1:<p>`.
pub proof fn lemma_health_targets_admin_port(port: u16)
    ensures
        health_target(admin_url(port)) == loopback_host_port(port),
{
    let s = http_scheme();
    let h = loopback_host_port(port);
    let a = admin_path();
    let url = admin_url(port);
    lemma_decimal(port as nat);
    let d = decimal(port as nat);
    assert(url =~= (s + h) + a);
    assert(a.is_suffix_of(url)) by {
        assert(url.subrange(url.len() - a.len(), url.len() as int) =~= a);
    }
    assert(url.take(url.len() - a.len()) =~= s + h);
    let sh = s + h;
    assert(sh.last() == d.last());
    assert(is_digit(d[d.len() - 1]));
    assert(!a.is_suffix_of(sh)) by {
        if a.is_suffix_of(sh) {
            assert(sh.subrange(sh.len() - a.len(), sh.len() as int)[6] == a[6]);
        }
    }
    assert(trim_suffixes(sh, a) == sh);
    assert(trim_suffixes(url, a) == trim_suffixes(url.take(url.len() - a.len()), a));
    assert(trim_suffixes(url, a) == sh);
    assert(s.is_prefix_of(sh)) by {
        assert(sh.subrange(0, s.len() as int) =~= s);
    }
    assert(sh.skip(s.len() as int) =~= h);
    assert(!s.is_prefix_of(h)) by {
        if s.is_prefix_of(h) {
            assert(h.subrange(0, s.len() as int)[0] == s[0]);
        }
    }
    assert(trim_prefixes(h, s) == h);
}


/// Where `p` occurs at `k` and nowhere in `[i, k)`, the search from `i` finds `k`.
proof fn lemma_find_from_first(s: Seq<char>, p: Seq<char>, i: int, k: int)
    requires
        0 <= i <= k,
        occurs_at(s, p, k),
        forall|j: int| i <= j < k ==> !occurs_at(s, p, j),
    ensures
        find_from(s, p, i) == Some(k),
    decreases k - i,
{
    if i < k {
        assert(!occurs_at(s, p, i));
        lemma_find_from_first(s, p, i + 1, k);
    }
}

/// The verdict on a response depends on its head only through the status line:
/// whatever the head holds and however long it is, a head starting with
/// `HTTP/1.1 200` or `HTTP/1.0 200`, followed by the blank line and a body whose
/// trimmed text ends with `}`, gives that trimmed body, and the response is
/// healthy exactly when its `status` member is the string `ok`.
pub proof fn lemma_health_verdict_reads_only_status_line(head: Seq<char>, body: Seq<char>)
    requires
        seq!['H', 'T', 'T', 'P', '/', '1', '.', '1', ' ', '2', '0', '0'].is_prefix_of(head)
            || seq!['H', 'T', 'T', 'P', '/', '1', '.', '0', ' ', '2', '0', '0'].is_prefix_of(head),
        forall|i: int| !occurs_at(head, seq!['\r', '\n', '\r', '\n'], i),
        head.last() != '\r' && head.last() != '\n',
        trim(body).len() > 0,
        trim(body).last() == '}',
    ensures
        health_body(head + seq!['\r', '\n', '\r', '\n'] + body) == Some(trim(body)),
        health_ok(head + seq!['\r', '\n', '\r', '\n'] + body) == (json_member_str(
            trim(body),
            seq!['s', 't', 'a', 't', 'u', 's'],
        ) == Some(seq!['o', 'k'])),
{
    let bl = blank_line();
    assert(bl =~= seq!['\r', '\n', '\r', '\n']);
    let s = head + bl + body;
    let n = head.len() as int;
    assert(head.len() >= 12);
    assert(s.subrange(n, n + 4) =~= bl);
    assert forall|j: int| 0 <= j < n implies !occurs_at(s, bl, j) by {
        if occurs_at(s, bl, j) {
            if j + 4 <= n {
                assert(head.subrange(j, j + 4) =~= s.subrange(j, j + 4));
                assert(occurs_at(head, bl, j));
            } else {
                // The last character of the head would have to be `\r` or `\n`.
                assert(s.subrange(j, j + 4)[n - 1 - j] == s[n - 1]);
                assert(s[n - 1] == head.last());
                assert(bl[n - 1 - j] == '\r' || bl[n - 1 - j] == '\n');
            }
        }
    }
    lemma_find_from_first(s, bl, 0, n);
    assert(s.take(n) =~= head);
    assert(s.skip(n + 4) =~= body);
    assert(http11_ok() =~= seq!['H', 'T', 'T', 'P', '/', '1', '.', '1', ' ', '2', '0', '0']);
    assert(http10_ok() =~= seq!['H', 'T', 'T', 'P', '/', '1', '.', '0', ' ', '2', '0', '0']);
    assert(status_key() =~= seq!['s', 't', 'a', 't', 'u', 's']);
    assert(ok_word() =~= seq!['o', 'k']);
}

} // verus!

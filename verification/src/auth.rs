//! Access control for the signalling endpoint.
//!
//! Annex streams a desktop, so the threat is someone watching the screen.
//! Anyone on the same network is kept out by a token generated fresh at every
//! launch and compared in constant time. Any website the user visits is kept
//! out by checking the WebSocket `Origin`: absent (a non-browser client) or
//! our own page. DNS rebinding, where an attacker's name resolves to our
//! address, is kept out by accepting only a literal IP or localhost as `Host`.

use crate::text::{chars_of, push_char, str_eq};
use vstd::prelude::*;
use vstd::string::StrSliceExecFns;
use vstd::string::StringSliceAdditionalSpecFns;
use subtle::ConstantTimeEq;

verus! {

/// Length of a generated token, in characters; one random byte each.
pub const TOKEN_BYTES: usize = 16;

/// The unambiguous alphabet tokens are drawn from: no `0`/`O`, no `1`/`l`/`I`.
pub const ALPHABET: &'static str = "23456789abcdefghijkmnpqrstuvwxyzACDEFGHJKLMNPQRSTUVWXYZ";

/// Number of characters in [`ALPHABET`].
pub const ALPHABET_LEN: usize = 55;

/// The characters a human could misread for one another.
pub open spec fn is_ambiguous(c: char) -> bool {
    c == '0' || c == 'O' || c == '1' || c == 'l' || c == 'I'
}

/// The token character a random byte selects.
pub open spec fn token_char(b: u8) -> char {
    ALPHABET@[(b % 55) as int]
}

/// The token spelled by a sequence of random bytes.
pub open spec fn token_of(raw: Seq<u8>) -> Seq<char> {
    raw.map_values(|b: u8| token_char(b))
}

/// The alphabet has 55 characters and none of them is ambiguous.
pub proof fn lemma_alphabet_unambiguous()
    ensures
        ALPHABET@.len() == ALPHABET_LEN,
        forall|i: int| 0 <= i < ALPHABET@.len() ==> !is_ambiguous(#[trigger] ALPHABET@[i]),
{
    reveal_strlit("23456789abcdefghijkmnpqrstuvwxyzACDEFGHJKLMNPQRSTUVWXYZ");
}

/// Why a token could not be generated.
#[derive(Debug, Clone, Copy, PartialEq, Eq)]
pub enum TokenError {
    /// The operating system's random source failed. There is no weaker
    /// fallback on purpose.
    EntropyUnavailable,
}

/// Fills `buf` with bytes from the operating system's CSPRNG and says
/// whether that worked.
///
/// Trusted: calls `getrandom::fill`, which writes into the given slice and
/// never changes its length, and reports its `Err` as `false`. What bytes
/// come back is chance, so nothing is said of them.
#[verifier::external_body]
fn os_fill(buf: &mut Vec<u8>) -> (ok: bool)
    ensures
        final(buf)@.len() == old(buf)@.len(),
{
    getrandom::fill(buf.as_mut_slice()).is_ok()
}

/// Spells a token from random bytes: each byte picks the character at its
/// value modulo the alphabet size.
pub fn token_from_bytes(raw: &[u8]) -> (t: String)
    ensures
        t@ == token_of(raw@),
{
    proof {
        reveal_strlit("23456789abcdefghijkmnpqrstuvwxyzACDEFGHJKLMNPQRSTUVWXYZ");
    }
    let mut t = String::new();
    let mut i: usize = 0;
    while i < raw.len()
        invariant
            i <= raw.len(),
            ALPHABET@.len() == 55,
            t@ == token_of(raw@.take(i as int)),
        decreases raw.len() - i,
    {
        let idx = (raw[i] % 55) as usize;
        let c = ALPHABET.get_char(idx);
        push_char(&mut t, c);
        proof {
            assert(token_of(raw@.take(i + 1)) =~= token_of(raw@.take(i as int)).push(token_char(raw@[i as int])));
        }
        i += 1;
    }
    proof {
        assert(raw@.take(i as int) =~= raw@);
    }
    t
}

/// A fresh token from the operating system's CSPRNG: sixteen characters of
/// the unambiguous alphabet. Regenerated on every launch on purpose.
pub fn generate_token() -> (r: Result<String, TokenError>)
    ensures
        r matches Ok(t) ==> t@.len() == TOKEN_BYTES && exists|raw: Seq<u8>| raw.len() == TOKEN_BYTES && t@ == token_of(raw),
        r matches Ok(t) ==> forall|i: int| 0 <= i < t@.len() ==> !is_ambiguous(#[trigger] t@[i]),
{
    let mut raw: Vec<u8> = vec![0u8; TOKEN_BYTES];
    match os_fill(&mut raw) {
        true => {
            let t = token_from_bytes(raw.as_slice());
            proof {
                lemma_alphabet_unambiguous();
                assert forall|i: int| 0 <= i < t@.len() implies !is_ambiguous(#[trigger] t@[i]) by {
                    assert(t@[i] == token_char(raw@[i]));
                    assert(0 <= raw@[i] % 55 < 55);
                }
            }
            Ok(t)
        },
        false => Err(TokenError::EntropyUnavailable),
    }
}

/// Whether two byte strings are equal, in time that depends only on their
/// lengths.
///
/// Trusted: calls `subtle::ConstantTimeEq::ct_eq` on byte slices and
/// converts the `Choice` to `bool`. Its source returns `Choice(0)` for
/// slices of different length and otherwise `Choice(1)` exactly when every
/// byte pair is equal; the contract states that equality.
#[verifier::external_body]
fn ct_bytes_eq(a: &[u8], b: &[u8]) -> (r: bool)
    ensures
        r == (a@ == b@),
{
    a.ct_eq(b).into()
}

/// Compares a provided token with the expected one without leaking the
/// position of the first difference. A missing token never matches.
pub fn token_matches(expected: &str, provided: Option<&str>) -> (r: bool)
    ensures
        r == match provided {
            Some(p) => p@ == expected@,
            None => false,
        },
{
    let provided = match provided {
        Some(p) => p,
        None => return false,
    };
    // Length is not secret: it is a fixed constant of the protocol.
    if provided.len() != expected.len() {
        proof {
            if provided@ == expected@ {
                assert(provided.spec_bytes() == expected.spec_bytes());
            }
        }
        return false;
    }
    let r = ct_bytes_eq(expected.as_bytes(), provided.as_bytes());
    proof {
        vstd::utf8::encode_utf8_decode_utf8(expected@);
        vstd::utf8::encode_utf8_decode_utf8(provided@);
    }
    r
}

/// `://`, which separates a URL's scheme from the rest.
pub open spec fn scheme_separator() -> Seq<char> {
    seq![':', '/', '/']
}

/// The first index at or after `i` where `s` contains `://`.
pub open spec fn find_separator_from(s: Seq<char>, i: int) -> Option<int>
    decreases s.len() - i,
{
    if i < 0 || i + 3 > s.len() {
        None
    } else if s.subrange(i, i + 3) == scheme_separator() {
        Some(i)
    } else {
        find_separator_from(s, i + 1)
    }
}

/// `s` split around its first `://`, as `str::split_once` does.
pub open spec fn split_scheme(s: Seq<char>) -> Option<(Seq<char>, Seq<char>)> {
    match find_separator_from(s, 0) {
        Some(i) => Some((s.subrange(0, i), s.subrange(i + 3, s.len() as int))),
        None => None,
    }
}

/// Whether an `Origin` may open a session: absent (not a browser), or an
/// `http` or `https` origin naming exactly our host, never `null`.
pub open spec fn origin_ok(origin: Option<Seq<char>>, expected_host: Seq<char>) -> bool {
    match origin {
        None => true,
        Some(o) => o != "null"@ && match split_scheme(o) {
            Some((scheme, host)) => (scheme == "http"@ || scheme == "https"@) && host == expected_host,
            None => false,
        },
    }
}

proof fn lemma_find_separator_after_scheme(scheme: Seq<char>, rest: Seq<char>, i: int)
    requires
        0 <= i <= scheme.len(),
        forall|j: int| 0 <= j < scheme.len() ==> #[trigger] scheme[j] != ':',
    ensures
        find_separator_from(scheme + scheme_separator() + rest, i) == Some(scheme.len() as int),
    decreases scheme.len() - i,
{
    let s = scheme + scheme_separator() + rest;
    if i < scheme.len() {
        assert(s[i] == scheme[i]);
        assert(s.subrange(i, i + 3)[0] != scheme_separator()[0]);
        lemma_find_separator_after_scheme(scheme, rest, i + 1);
    } else {
        assert(s.subrange(i, i + 3) =~= scheme_separator());
    }
}

/// Which origins may open a session, for an origin of the form
/// `<scheme>://<rest>` whose scheme holds no `:`: exactly those whose scheme
/// is `http` or `https` and whose rest is our own host. An absent origin is
/// allowed, and `null` never is.
pub proof fn lemma_origin_rules(scheme: Seq<char>, rest: Seq<char>, expected_host: Seq<char>)
    requires
        forall|j: int| 0 <= j < scheme.len() ==> #[trigger] scheme[j] != ':',
    ensures
        origin_ok(Some(scheme + "://"@ + rest), expected_host) == ((scheme == "http"@ || scheme == "https"@)
            && rest == expected_host),
        origin_ok(None, expected_host),
        !origin_ok(Some("null"@), expected_host),
{
    reveal_strlit("://");
    reveal_strlit("null");
    assert("://"@ =~= scheme_separator());
    let o = scheme + "://"@ + rest;
    lemma_find_separator_after_scheme(scheme, rest, 0);
    assert(o.subrange(0, scheme.len() as int) =~= scheme);
    assert(o.subrange(scheme.len() as int + 3, o.len() as int) =~= rest);
    assert(o != "null"@) by {
        if o == "null"@ {
            assert(o[scheme.len() as int] == ':');
            assert(scheme.len() < 4);
        }
    }
}

fn find_separator(v: &Vec<char>) -> (r: Option<usize>)
    ensures
        match r {
            Some(i) => find_separator_from(v@, 0) == Some(i as int) && i + 3 <= v@.len(),
            None => find_separator_from(v@, 0) is None,
        },
{
    let mut i: usize = 0;
    while i < v.len() && v.len() - i >= 3
        invariant
            i <= v.len(),
            find_separator_from(v@, 0) == find_separator_from(v@, i as int),
        decreases v.len() - i,
    {
        if v[i] == ':' && v[i + 1] == '/' && v[i + 2] == '/' {
            proof {
                assert(v@.subrange(i as int, i + 3) =~= scheme_separator());
            }
            return Some(i);
        }
        proof {
            assert(v@.subrange(i as int, i + 3) != scheme_separator()) by {
                if v@.subrange(i as int, i + 3) == scheme_separator() {
                    assert(v@.subrange(i as int, i + 3)[0] == ':');
                    assert(v@.subrange(i as int, i + 3)[1] == '/');
                    assert(v@.subrange(i as int, i + 3)[2] == '/');
                }
            }
        }
        i += 1;
    }
    None
}

/// Whether a WebSocket `Origin` may open a session.
///
/// Absent is allowed: non-browser clients send none, and a browser always
/// does, so absence cannot be forged by a web page. `null`, which sandboxed
/// frames and `file://` pages send, is refused.
pub fn origin_allowed(origin: Option<&str>, expected_host: &str) -> (r: bool)
    ensures
        r == origin_ok(
            match origin {
                Some(o) => Some(o@),
                None => None,
            },
            expected_host@,
        ),
{
    let origin = match origin {
        Some(o) => o,
        None => return true,
    };
    if str_eq(origin, "null") {
        return false;
    }
    let v = chars_of(origin);
    match find_separator(&v) {
        Some(i) => {
            let n = origin.unicode_len();
            let scheme = origin.substring_char(0, i);
            let host = origin.substring_char(i + 3, n);
            (str_eq(scheme, "http") || str_eq(scheme, "https")) && str_eq(host, expected_host)
        },
        None => false,
    }
}

/// `localhost`, spelled in lower case and in upper case.
pub open spec fn localhost_lower() -> Seq<char> {
    seq!['l', 'o', 'c', 'a', 'l', 'h', 'o', 's', 't']
}

pub open spec fn localhost_upper() -> Seq<char> {
    seq!['L', 'O', 'C', 'A', 'L', 'H', 'O', 'S', 'T']
}

/// Whether `name` is `localhost` up to ASCII case.
pub open spec fn is_localhost(name: Seq<char>) -> bool {
    &&& name.len() == 9
    &&& forall|i: int|
        0 <= i < 9 ==> #[trigger] name[i] == localhost_lower()[i] || name[i] == localhost_upper()[i]
}

/// The part of `s` before its last `c`, or all of `s` when it has none.
pub open spec fn before_last(s: Seq<char>, c: char) -> Seq<char>
    decreases s.len(),
{
    if s.len() == 0 {
        s
    } else if s.last() == c {
        s.drop_last()
    } else {
        let b = before_last(s.drop_last(), c);
        if b == s.drop_last() {
            s
        } else {
            b
        }
    }
}

/// Whether `c` occurs in `s`.
pub open spec fn has_char(s: Seq<char>, c: char) -> bool {
    exists|i: int| 0 <= i < s.len() && s[i] == c
}

/// `s` without any leading `c`.
pub open spec fn trim_leading(s: Seq<char>, c: char) -> Seq<char>
    decreases s.len(),
{
    if s.len() > 0 && s[0] == c {
        trim_leading(s.drop_first(), c)
    } else {
        s
    }
}

/// `s` without any trailing `c`.
pub open spec fn trim_trailing(s: Seq<char>, c: char) -> Seq<char>
    decreases s.len(),
{
    if s.len() > 0 && s.last() == c {
        trim_trailing(s.drop_last(), c)
    } else {
        s
    }
}

/// Which `Host` headers are answered, for a header of the form
/// `<name>:<port>` or `<name>` whose name holds no `:`, `[` or `]`, and for
/// a bracketed IPv6 header `[<address>]:<port>`: exactly those whose name is
/// `localhost` (in any case) or a literal IP address. A request with no
/// `Host` is never answered.
pub proof fn lemma_host_rules(name: Seq<char>, addr: Seq<char>, port: Seq<char>, name_is_ip: bool)
    requires
        forall|j: int| 0 <= j < name.len() ==> #[trigger] name[j] != ':' && name[j] != '[' && name[j] != ']',
        forall|j: int| 0 <= j < addr.len() ==> #[trigger] addr[j] != '[' && addr[j] != ']',
        forall|j: int| 0 <= j < port.len() ==> #[trigger] port[j] != ':',
    ensures
        host_ok(Some(name + ":"@ + port), name_is_ip) == (is_localhost(name) || name_is_ip),
        host_ok(Some(name), name_is_ip) == (is_localhost(name) || name_is_ip),
        host_ok(Some("["@ + addr + "]:"@ + port), name_is_ip) == (is_localhost(addr) || name_is_ip),
        !host_ok(None, name_is_ip),
        is_localhost("localhost"@),
        is_localhost("LOCALHOST"@),
{
    reveal_strlit(":");
    reveal_strlit("[");
    reveal_strlit("]:");
    reveal_strlit("localhost");
    reveal_strlit("LOCALHOST");
    // name:port
    let h = name + ":"@ + port;
    assert(h[name.len() as int] == ':');
    assert forall|j: int| name.len() < j < h.len() implies h[j] != ':' by {
        assert(h[j] == port[j - name.len() - 1]);
    }
    lemma_before_last_split(h, ':', name.len() as int);
    assert(h.subrange(0, name.len() as int) =~= name);
    lemma_trim_leading_at(name, '[', 0);
    assert(name.subrange(0, name.len() as int) =~= name);
    lemma_trim_trailing_at(name, ']', name.len() as int);
    // name alone
    lemma_before_last_none(name, ':');
    // [addr]:port
    let g = "["@ + addr + "]:"@ + port;
    let k: int = addr.len() as int + 2;
    assert(g[k] == ':');
    assert forall|j: int| k < j < g.len() implies g[j] != ':' by {
        assert(g[j] == port[j - k - 1]);
    }
    lemma_before_last_split(g, ':', k);
    let b = g.subrange(0, k);
    assert(b =~= "["@ + addr + "]"@) by {
        reveal_strlit("]");
    }
    reveal_strlit("]");
    assert(b[0] == '[');
    assert(addr.len() == 0 || b[1] != '[');
    lemma_trim_leading_at(b, '[', 1);
    let t = b.subrange(1, b.len() as int);
    assert(t =~= addr + "]"@);
    assert(t[addr.len() as int] == ']');
    lemma_trim_trailing_at(t, ']', addr.len() as int);
    assert(t.subrange(0, addr.len() as int) =~= addr);
    // localhost, in either case
    assert forall|i: int| 0 <= i < 9 implies #[trigger] "localhost"@[i] == localhost_lower()[i]
        || "localhost"@[i] == localhost_upper()[i] by {
        reveal_strlit("localhost");
    }
    assert forall|i: int| 0 <= i < 9 implies #[trigger] "LOCALHOST"@[i] == localhost_lower()[i]
        || "LOCALHOST"@[i] == localhost_upper()[i] by {
        reveal_strlit("LOCALHOST");
    }
}

/// The host name of a `Host` header: the part before the last `:` (the
/// port), with surrounding IPv6 brackets removed.
pub open spec fn host_name_of(host: Seq<char>) -> Seq<char> {
    trim_trailing(trim_leading(before_last(host, ':'), '['), ']')
}

/// Whether a `Host` header may be answered, given whether its host name
/// parses as a literal IP address: only a literal IP or localhost, never a
/// name, and never a request without a `Host`.
pub open spec fn host_ok(host: Option<Seq<char>>, name_is_ip: bool) -> bool {
    match host {
        None => false,
        Some(h) => is_localhost(host_name_of(h)) || name_is_ip,
    }
}

proof fn lemma_before_last_split(s: Seq<char>, c: char, k: int)
    requires
        0 <= k < s.len(),
        s[k] == c,
        forall|j: int| k < j < s.len() ==> s[j] != c,
    ensures
        before_last(s, c) == s.subrange(0, k),
    decreases s.len(),
{
    if k == s.len() - 1 {
        assert(s.drop_last() =~= s.subrange(0, k));
    } else {
        lemma_before_last_split(s.drop_last(), c, k);
        assert(s.drop_last().subrange(0, k) =~= s.subrange(0, k));
        assert(s.subrange(0, k).len() < s.len());
        assert(s.subrange(0, k) != s.drop_last());
    }
}

proof fn lemma_before_last_none(s: Seq<char>, c: char)
    requires
        forall|j: int| 0 <= j < s.len() ==> s[j] != c,
    ensures
        before_last(s, c) == s,
    decreases s.len(),
{
    if s.len() > 0 {
        lemma_before_last_none(s.drop_last(), c);
    }
}

proof fn lemma_trim_leading_at(s: Seq<char>, c: char, a: int)
    requires
        0 <= a <= s.len(),
        forall|j: int| 0 <= j < a ==> s[j] == c,
        a == s.len() || s[a] != c,
    ensures
        trim_leading(s, c) == s.subrange(a, s.len() as int),
    decreases a,
{
    if a == 0 {
        assert(s.subrange(0, s.len() as int) =~= s);
    } else {
        lemma_trim_leading_at(s.drop_first(), c, a - 1);
        assert(s.drop_first().subrange(a - 1, s.len() - 1) =~= s.subrange(a, s.len() as int));
    }
}

proof fn lemma_trim_trailing_at(s: Seq<char>, c: char, b: int)
    requires
        0 <= b <= s.len(),
        forall|j: int| b <= j < s.len() ==> s[j] == c,
        b == 0 || s[b - 1] != c,
    ensures
        trim_trailing(s, c) == s.subrange(0, b),
    decreases s.len() - b,
{
    if b == s.len() {
        assert(s.subrange(0, b) =~= s);
    } else {
        lemma_trim_trailing_at(s.drop_last(), c, b);
        assert(s.drop_last().subrange(0, b) =~= s.subrange(0, b));
    }
}

/// The host name of a `Host` header value: the part before the last `:`,
/// with leading `[` and trailing `]` removed.
pub fn host_name(host: &str) -> (name: String)
    ensures
        name@ == host_name_of(host@),
{
    let v = chars_of(host);
    let ghost s = v@;
    // End of the name: the last ':' if there is one.
    let mut end: usize = v.len();
    let mut k: usize = v.len();
    while k > 0
        invariant
            k <= v.len(),
            s == v@,
            forall|j: int| k <= j < v.len() ==> v@[j] != ':',
        ensures
            k == 0 || v@[k - 1] == ':',
            forall|j: int| k <= j < v.len() ==> v@[j] != ':',
        decreases k,
    {
        if v[k - 1] == ':' {
            break;
        }
        k -= 1;
    }
    if k > 0 && v[k - 1] == ':' {
        end = k - 1;
        proof {
            lemma_before_last_split(s, ':', (k - 1) as int);
        }
    } else {
        proof {
            lemma_before_last_none(s, ':');
            assert(s.subrange(0, s.len() as int) =~= s);
        }
    }
    let ghost base = s.subrange(0, end as int);
    assert(before_last(s, ':') == base);
    // Drop leading '['.
    let mut a: usize = 0;
    while a < end && v[a] == '['
        invariant
            a <= end <= v.len(),
            s == v@,
            base == s.subrange(0, end as int),
            forall|j: int| 0 <= j < a ==> base[j] == '[',
        decreases end - a,
    {
        a += 1;
    }
    proof {
        lemma_trim_leading_at(base, '[', a as int);
    }
    let ghost mid = base.subrange(a as int, end as int);
    // Drop trailing ']'.
    let mut b: usize = end;
    while b > a && v[b - 1] == ']'
        invariant
            a <= b <= end <= v.len(),
            s == v@,
            base == s.subrange(0, end as int),
            mid == base.subrange(a as int, end as int),
            forall|j: int| b <= j < end ==> s[j] == ']',
        decreases b,
    {
        b -= 1;
    }
    proof {
        lemma_trim_trailing_at(mid, ']', (b - a) as int);
    }
    let mut name = String::new();
    let mut i: usize = a;
    while i < b
        invariant
            a <= i <= b <= end <= v.len(),
            s == v@,
            name@ == s.subrange(a as int, i as int),
        decreases b - i,
    {
        push_char(&mut name, v[i]);
        proof {
            assert(s.subrange(a as int, i + 1) =~= s.subrange(a as int, i as int).push(s[i as int]));
        }
        i += 1;
    }
    proof {
        assert(mid.subrange(0, (b - a) as int) =~= s.subrange(a as int, b as int));
    }
    name
}

/// Whether a host name is `localhost`, ignoring ASCII case.
pub fn is_localhost_name(name: &str) -> (r: bool)
    ensures
        r == is_localhost(name@),
{
    let v = chars_of(name);
    let lower = ['l', 'o', 'c', 'a', 'l', 'h', 'o', 's', 't'];
    let upper = ['L', 'O', 'C', 'A', 'L', 'H', 'O', 'S', 'T'];
    assert(lower@ =~= localhost_lower());
    assert(upper@ =~= localhost_upper());
    if v.len() != 9 {
        return false;
    }
    let mut i: usize = 0;
    while i < 9
        invariant
            i <= 9,
            v@ == name@,
            v@.len() == 9,
            lower@ == localhost_lower(),
            upper@ == localhost_upper(),
            forall|j: int| 0 <= j < i ==> #[trigger] v@[j] == localhost_lower()[j] || v@[j] == localhost_upper()[j],
        decreases 9 - i,
    {
        if v[i] != lower[i] && v[i] != upper[i] {
            return false;
        }
        i += 1;
    }
    true
}

/// Whether the `Host` header is one we are willing to answer on, given
/// whether its host name (see [`host_name`]) parses as a literal IP address.
///
/// A DNS name reaching us means someone resolved their own domain to this
/// machine, which is the rebinding attack: the page's origin is genuinely
/// theirs, so the `Origin` check cannot help, but `Host` gives them away.
pub fn host_allowed(host: Option<&str>, name_is_ip: bool) -> (r: bool)
    ensures
        r == host_ok(
            match host {
                Some(h) => Some(h@),
                None => None,
            },
            name_is_ip,
        ),
{
    match host {
        None => false,
        Some(h) => {
            let name = host_name(h);
            is_localhost_name(name.as_str()) || name_is_ip
        },
    }
}

/// The status a WebSocket upgrade request is refused with, if any: 421 when
/// `Host` is not a literal IP or localhost, 403 when the `Origin` is not our
/// own page at that host. Only a request that passes both is upgraded.
pub open spec fn upgrade_status(host: Option<Seq<char>>, name_is_ip: bool, origin: Option<Seq<char>>) -> Option<u16> {
    if !host_ok(host, name_is_ip) {
        Some(421u16)
    } else if !origin_ok(origin, host->0) {
        Some(403u16)
    } else {
        None
    }
}

/// Decides an upgrade request to the signalling endpoint: the HTTP status
/// it is refused with, or `None` to upgrade it. `name_is_ip` says whether
/// the `Host` header's host name parses as a literal IP address.
pub fn upgrade_answer(host: Option<&str>, name_is_ip: bool, origin: Option<&str>) -> (r: Option<u16>)
    ensures
        r == upgrade_status(
            match host {
                Some(h) => Some(h@),
                None => None,
            },
            name_is_ip,
            match origin {
                Some(o) => Some(o@),
                None => None,
            },
        ),
        !host_ok(
            match host {
                Some(h) => Some(h@),
                None => None,
            },
            name_is_ip,
        ) ==> r == Some(421u16),
        r is None ==> host is Some && origin_ok(
            match origin {
                Some(o) => Some(o@),
                None => None,
            },
            host->0@,
        ),
{
    if !host_allowed(host, name_is_ip) {
        return Some(421);
    }
    match host {
        Some(h) => {
            if origin_allowed(origin, h) {
                None
            } else {
                Some(403)
            }
        },
        None => Some(421),
    }
}

} // verus!

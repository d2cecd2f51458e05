//! The web console's access rules: which session a request names, when a
//! session has expired, whether a request comes from the console itself,
//! and what a login or a role change grants.
use crate::parser::{nat_text, nat_text_exec};
use crate::shell::{occurs_at, occurs_at_exec};
use crate::cli::{lowercase_text, opt_view, str_to_lowercase};
use crate::text::{chars_eq_str, chars_of, owned, str_trim, string_of, trim};
use vstd::prelude::*;
use vstd::string::StringExecFns;

verus! {

/// The name of the session cookie.
pub open spec fn session_cookie_name() -> Seq<char> {
    "liven_session"@
}

/// The end of the piece of `s` that starts at `i` and runs to the next `sep`
/// (or to the end).
pub open spec fn piece_end(s: Seq<char>, sep: char, i: int) -> int
    decreases s.len() - i,
{
    if i < 0 || i >= s.len() || s[i] == sep {
        i
    } else {
        piece_end(s, sep, i + 1)
    }
}

/// The pieces of `s` from `i` on, split at every `sep` (std `str::split`
/// with a character; the last piece may be empty).
pub open spec fn pieces_from(s: Seq<char>, sep: char, i: int) -> Seq<Seq<char>>
    decreases s.len() - i, 1int,
{
    if i < 0 || i > s.len() {
        Seq::empty()
    } else {
        let e = piece_end(s, sep, i);
        if e < i || e >= s.len() {
            seq![s.subrange(i, s.len() as int)]
        } else {
            seq![s.subrange(i, e)] + pieces_from(s, sep, e + 1)
        }
    }
}

proof fn lemma_piece_end(s: Seq<char>, sep: char, i: int)
    requires
        0 <= i <= s.len(),
    ensures
        i <= piece_end(s, sep, i) <= s.len(),
        piece_end(s, sep, i) < s.len() ==> s[piece_end(s, sep, i)] == sep,
        forall|j: int| i <= j < piece_end(s, sep, i) ==> s[j] != sep,
    decreases s.len() - i,
{
    if i < s.len() && s[i] != sep {
        lemma_piece_end(s, sep, i + 1);
    }
}

/// The value of the session cookie in a `Cookie` header: the first
/// `;`-separated part that splits at `=` into exactly a name and a value,
/// the name being `liven_session` once trimmed; the value trimmed.
pub open spec fn cookie_from(parts: Seq<Seq<char>>) -> Option<Seq<char>>
    decreases parts.len(),
{
    if parts.len() == 0 {
        None
    } else {
        let kv = pieces_from(parts[0], '=', 0);
        if kv.len() == 2 && trim(kv[0]) == session_cookie_name() {
            Some(trim(kv[1]))
        } else {
            cookie_from(parts.drop_first())
        }
    }
}

/// The session cookie's value in a `Cookie` header.
pub open spec fn spec_session_cookie(header: Seq<char>) -> Option<Seq<char>> {
    cookie_from(pieces_from(header, ';', 0))
}

/// The pieces of `s` split at every `sep`.
pub(crate) fn split_char(s: &[char], sep: char) -> (r: Vec<Vec<char>>)
    ensures
        r@.map_values(|v: Vec<char>| v@) == pieces_from(s@, sep, 0),
{
    let mut out: Vec<Vec<char>> = Vec::new();
    let mut i: usize = 0;
    let mut cur: Vec<char> = Vec::new();
    proof {
        assert(out@.map_values(|v: Vec<char>| v@) + pieces_from(s@, sep, 0) =~= pieces_from(s@, sep, 0));
        assert(cur@ =~= s@.subrange(0, 0));
    }
    let ghost whole = pieces_from(s@, sep, 0);
    let mut start: usize = 0;
    while i < s.len()
        invariant
            start <= i <= s@.len(),
            cur@ == s@.subrange(start as int, i as int),
            forall|j: int| start <= j < i ==> s@[j] != sep,
            out@.map_values(|v: Vec<char>| v@) + pieces_from(s@, sep, start as int) == whole,
        decreases s.len() - i,
    {
        if s[i] == sep {
            proof {
                lemma_piece_end(s@, sep, start as int);
                assert(piece_end(s@, sep, start as int) == i) by {
                    if piece_end(s@, sep, start as int) < i {
                        assert(s@[piece_end(s@, sep, start as int)] == sep);
                    }
                    assert(piece_end(s@, sep, start as int) <= i) by {
                        lemma_piece_end_le(s@, sep, start as int, i as int);
                    }
                }
                assert(pieces_from(s@, sep, start as int) == seq![s@.subrange(start as int, i as int)] + pieces_from(
                    s@,
                    sep,
                    i + 1,
                ));
            }
            let ghost before = out@.map_values(|v: Vec<char>| v@);
            let ghost piece = cur@;
            out.push(cur);
            cur = Vec::new();
            i += 1;
            start = i;
            proof {
                assert(out@.map_values(|v: Vec<char>| v@) =~= before.push(piece));
                assert(cur@ =~= s@.subrange(start as int, i as int));
            }
        } else {
            cur.push(s[i]);
            i += 1;
            proof {
                assert(cur@ =~= s@.subrange(start as int, i as int));
            }
        }
    }
    proof {
        lemma_piece_end_le(s@, sep, start as int, i as int);
        lemma_piece_end(s@, sep, start as int);
        assert(pieces_from(s@, sep, start as int) == seq![s@.subrange(start as int, s@.len() as int)]);
    }
    let ghost before = out@.map_values(|v: Vec<char>| v@);
    out.push(cur);
    proof {
        assert(out@.map_values(|v: Vec<char>| v@) =~= before.push(s@.subrange(start as int, s@.len() as int)));
    }
    out
}

/// A piece ends no later than any separator-free stretch allows.
proof fn lemma_piece_end_le(s: Seq<char>, sep: char, i: int, k: int)
    requires
        0 <= i <= k <= s.len(),
        forall|j: int| i <= j < k ==> s[j] != sep,
    ensures
        k <= piece_end(s, sep, i),
    decreases k - i,
{
    if i < k {
        assert(s[i] != sep);
        lemma_piece_end_le(s, sep, i + 1, k);
    } else {
        lemma_piece_end(s, sep, i);
    }
}


/// The session cookie's value in a `Cookie` header (see
/// [`spec_session_cookie`]).
pub fn session_cookie(header: &str) -> (r: Option<String>)
    ensures
        opt_view(r) == spec_session_cookie(header@),
{
    let hc = chars_of(header);
    let parts = split_char(hc.as_slice(), ';');
    let ghost pv = parts@.map_values(|v: Vec<char>| v@);
    let mut i: usize = 0;
    proof {
        reveal_strlit("liven_session");
        assert(pv.skip(0) =~= pv);
    }
    while i < parts.len()
        invariant
            i <= parts@.len(),
            pv == parts@.map_values(|v: Vec<char>| v@),
            pv == pieces_from(header@, ';', 0),
            cookie_from(pv) == cookie_from(pv.skip(i as int)),
        decreases parts.len() - i,
    {
        proof {
            reveal_strlit("liven_session");
            assert(pv.skip(i as int)[0] == parts@[i as int]@);
            assert(pv.skip(i as int).drop_first() =~= pv.skip(i + 1));
        }
        let kv = split_char(parts[i].as_slice(), '=');
        if kv.len() == 2 {
            let name = string_of(kv[0].as_slice());
            let trimmed = chars_of(str_trim(name.as_str()));
            if chars_eq_str(trimmed.as_slice(), "liven_session") {
                let value = string_of(kv[1].as_slice());
                proof {
                    assert(kv@.map_values(|v: Vec<char>| v@)[1] == kv@[1]@);
                }
                return Some(owned(str_trim(value.as_str())));
            }
        }
        i += 1;
    }
    None
}

/// `s` without every leading copy of `p` (std `str::trim_start_matches`).
pub open spec fn strip_all(s: Seq<char>, p: Seq<char>) -> Seq<char>
    decreases s.len(),
{
    if p.len() > 0 && occurs_at(s, 0, p) {
        strip_all(s.skip(p.len() as int), p)
    } else {
        s
    }
}

/// The text after a `Bearer ` prefix, if any.
pub open spec fn strip_bearer(a: Seq<char>) -> Seq<char> {
    if occurs_at(a, 0, "Bearer "@) {
        a.skip(7)
    } else {
        a
    }
}

/// The session a request names: the session cookie when the request has
/// one, else the `Authorization` header without its `Bearer ` prefix,
/// trimmed.
pub open spec fn spec_session_token(cookie_header: Option<Seq<char>>, authorization: Option<Seq<char>>) -> Option<
    Seq<char>,
> {
    let from_cookie = match cookie_header {
        Some(h) => spec_session_cookie(h),
        None => None,
    };
    match from_cookie {
        Some(v) => Some(v),
        None => match authorization {
            Some(a) => Some(trim(strip_bearer(a))),
            None => None,
        },
    }
}

/// The text of an optional string slice.
pub open spec fn opt_str_view(o: Option<&str>) -> Option<Seq<char>> {
    match o {
        Some(s) => Some(s@),
        None => None,
    }
}

/// The session a request names (see [`spec_session_token`]).
pub fn session_token(cookie_header: Option<&str>, authorization: Option<&str>) -> (r: Option<String>)
    ensures
        opt_view(r) == spec_session_token(opt_str_view(cookie_header), opt_str_view(authorization)),
{
    if let Some(h) = cookie_header {
        if let Some(v) = session_cookie(h) {
            return Some(v);
        }
    }
    match authorization {
        Some(a) => {
            let ac = chars_of(a);
            let bearer = chars_of("Bearer ");
            proof {
                reveal_strlit("Bearer ");
            }
            if occurs_at_exec(ac.as_slice(), 0, bearer.as_slice()) {
                let mut rest: Vec<char> = Vec::new();
                let mut k: usize = 7;
                while k < ac.len()
                    invariant
                        7 <= k <= ac@.len(),
                        rest@ == ac@.subrange(7, k as int),
                    decreases ac.len() - k,
                {
                    rest.push(ac[k]);
                    k += 1;
                    proof {
                        assert(rest@ =~= ac@.subrange(7, k as int));
                    }
                }
                proof {
                    assert(rest@ =~= ac@.skip(7));
                }
                let t = string_of(rest.as_slice());
                Some(owned(str_trim(t.as_str())))
            } else {
                Some(owned(str_trim(a)))
            }
        },
        None => None,
    }
}

/// Whether an elapsed time of `secs` seconds and `nanos` nanoseconds is
/// longer than `limit` seconds.
pub open spec fn longer_than(secs: u64, nanos: u32, limit: u64) -> bool {
    secs > limit || (secs == limit && nanos > 0)
}

/// Whether a session idle for the given time has expired: past the
/// 30-minute idle limit or the 8-hour limit.
pub open spec fn spec_session_expired(secs: u64, nanos: u32) -> bool {
    longer_than(secs, nanos, 1800) || longer_than(secs, nanos, 28800)
}

/// Whether a session idle for the given time has expired (see
/// [`spec_session_expired`]).
pub fn session_expired(secs: u64, nanos: u32) -> (r: bool)
    ensures
        r == spec_session_expired(secs, nanos),
{
    (secs > 1800 || (secs == 1800 && nanos > 0)) || (secs > 28800 || (secs == 28800 && nanos > 0))
}

/// The `Set-Cookie` value that opens or renews a session.
pub fn session_set_cookie(session_id: &str) -> (r: String)
    ensures
        r@ == "liven_session="@ + session_id@ + "; HttpOnly; SameSite=Lax; Max-Age=28800; Path=/"@,
{
    let mut c = String::from_str("liven_session=");
    c.append(session_id);
    c.append("; HttpOnly; SameSite=Lax; Max-Age=28800; Path=/");
    c
}

/// The first position from `i` where `p` occurs in `s`, or -1.
pub open spec fn find_from(s: Seq<char>, p: Seq<char>, i: int) -> int
    decreases s.len() - i,
{
    if i < 0 || i >= s.len() || i + p.len() > s.len() {
        -1
    } else if occurs_at(s, i, p) {
        i
    } else {
        find_from(s, p, i + 1)
    }
}

/// The authority of a `Referer`: the text between the first `://` and the
/// next `://`, up to its first `/`; none without `://`.
pub open spec fn referer_authority(r: Seq<char>) -> Option<Seq<char>> {
    let a = find_from(r, "://"@, 0);
    if a < 0 {
        None
    } else {
        let rest = r.skip(a + 3);
        let b = find_from(rest, "://"@, 0);
        let piece = if b < 0 {
            rest
        } else {
            rest.take(b)
        };
        Some(piece.take(piece_end(piece, '/', 0)))
    }
}

/// The addresses under which the console is reached: the configured host,
/// `127.0.0.1`, `[::1]` and `localhost`, each with the console's port.
pub open spec fn console_addresses(host: Seq<char>, port: u16) -> Seq<Seq<char>> {
    seq![
        host + ":"@ + nat_text(port as nat),
        "127.0.0.1:"@ + nat_text(port as nat),
        "[::1]:"@ + nat_text(port as nat),
        "localhost:"@ + nat_text(port as nat),
    ]
}

/// Whether a request comes from the console: its `Host`, its `Origin`
/// without the scheme, or its `Referer`'s authority is one of the
/// console's addresses.
pub open spec fn spec_is_console_request(
    host_header: Option<Seq<char>>,
    origin: Option<Seq<char>>,
    referer: Option<Seq<char>>,
    host: Seq<char>,
    port: u16,
) -> bool {
    let addrs = console_addresses(host, port);
    ||| host_header matches Some(h) && addrs.contains(h)
    ||| origin matches Some(o) && addrs.contains(strip_all(strip_all(o, "http://"@), "https://"@))
    ||| referer matches Some(r) && (referer_authority(r) matches Some(a) && addrs.contains(a))
}

fn strip_all_exec(s: &[char], p: &[char]) -> (r: Vec<char>)
    ensures
        r@ == strip_all(s@, p@),
{
    let mut i: usize = 0;
    assert(s@.skip(0) =~= s@);
    if p.len() > 0 {
        while occurs_at_exec(s, i, p)
            invariant
                p@.len() > 0,
                i <= s@.len(),
                strip_all(s@.skip(i as int), p@) == strip_all(s@, p@),
            decreases s.len() - i,
        {
            proof {
                assert forall|j: int| 0 <= j < p@.len() implies s@.skip(i as int).subrange(0, p@.len() as int)[j] == s@.subrange(
                    i as int,
                    i + p@.len(),
                )[j] by {}
                assert(s@.skip(i as int).subrange(0, p@.len() as int) =~= s@.subrange(i as int, i + p@.len()));
                assert(s@.skip(i as int).skip(p@.len() as int) =~= s@.skip(i + p@.len()));
            }
            i = i + p.len();
        }
        proof {
            if i + p@.len() <= s@.len() {
                assert(s@.skip(i as int).subrange(0, p@.len() as int) =~= s@.subrange(i as int, i + p@.len()));
            }
        }
    } else {
        assert(s@.skip(0) =~= s@);
    }
    let mut r: Vec<char> = Vec::new();
    let mut k = i;
    while k < s.len()
        invariant
            i <= k <= s@.len(),
            r@ == s@.subrange(i as int, k as int),
        decreases s.len() - k,
    {
        r.push(s[k]);
        k += 1;
        proof {
            assert(r@ =~= s@.subrange(i as int, k as int));
        }
    }
    proof {
        assert(r@ =~= s@.skip(i as int));
        if p@.len() > 0 {
            assert(!occurs_at(s@.skip(i as int), 0, p@));
        }
    }
    r
}

/// A found position is where the text occurs, at or after the start.
proof fn lemma_find_from(s: Seq<char>, p: Seq<char>, i: int)
    ensures
        find_from(s, p, i) == -1 || (i <= find_from(s, p, i) && occurs_at(s, find_from(s, p, i), p)),
    decreases s.len() - i,
{
    if !(i < 0 || i >= s.len() || i + p.len() > s.len()) && !occurs_at(s, i, p) {
        lemma_find_from(s, p, i + 1);
    }
}

fn find_from_exec(s: &[char], p: &[char]) -> (r: Option<usize>)
    ensures
        match r {
            Some(i) => i as int == find_from(s@, p@, 0),
            None => find_from(s@, p@, 0) == -1,
        },
{
    let mut i: usize = 0;
    while i < s.len()
        invariant
            i <= s@.len(),
            find_from(s@, p@, 0) == find_from(s@, p@, i as int),
        decreases s.len() - i,
    {
        if p.len() > s.len() - i {
            return None;
        }
        if occurs_at_exec(s, i, p) {
            return Some(i);
        }
        i += 1;
    }
    None
}

fn contains_address(addrs: &Vec<Vec<char>>, t: &[char]) -> (r: bool)
    ensures
        r == addrs@.map_values(|a: Vec<char>| a@).contains(t@),
{
    let ghost av = addrs@.map_values(|a: Vec<char>| a@);
    let mut i: usize = 0;
    while i < addrs.len()
        invariant
            i <= addrs@.len(),
            av == addrs@.map_values(|a: Vec<char>| a@),
            forall|j: int| 0 <= j < i ==> av[j] != t@,
        decreases addrs.len() - i,
    {
        if addrs[i].len() == t.len() && occurs_at_exec(addrs[i].as_slice(), 0, t) {
            proof {
                assert(addrs[i as int]@.subrange(0, t@.len() as int) =~= addrs[i as int]@);
                assert(av[i as int] == t@);
            }
            return true;
        }
        proof {
            if av[i as int] == t@ {
                assert(addrs[i as int]@.subrange(0, t@.len() as int) =~= addrs[i as int]@);
            }
        }
        i += 1;
    }
    false
}

fn address(prefix: &[char], port_text: &Vec<char>) -> (r: Vec<char>)
    ensures
        r@ == prefix@ + seq![':'] + port_text@,
{
    let mut v: Vec<char> = Vec::new();
    let mut k: usize = 0;
    while k < prefix.len()
        invariant
            k <= prefix@.len(),
            v@ == prefix@.take(k as int),
        decreases prefix.len() - k,
    {
        v.push(prefix[k]);
        k += 1;
        proof {
            assert(v@ =~= prefix@.take(k as int));
        }
    }
    v.push(':');
    let mut j: usize = 0;
    while j < port_text.len()
        invariant
            j <= port_text@.len(),
            v@ == prefix@ + seq![':'] + port_text@.take(j as int),
        decreases port_text.len() - j,
    {
        v.push(port_text[j]);
        j += 1;
        proof {
            assert(v@ =~= prefix@ + seq![':'] + port_text@.take(j as int));
        }
    }
    proof {
        assert(prefix@.take(prefix@.len() as int) =~= prefix@);
        assert(port_text@.take(port_text@.len() as int) =~= port_text@);
    }
    v
}

/// Whether a request comes from the console (see
/// [`spec_is_console_request`]).
pub fn is_console_request(
    host_header: Option<&str>,
    origin: Option<&str>,
    referer: Option<&str>,
    host: &str,
    port: u16,
) -> (r: bool)
    ensures
        r == spec_is_console_request(
            opt_str_view(host_header),
            opt_str_view(origin),
            opt_str_view(referer),
            host@,
            port,
        ),
{
    let pt = chars_of(nat_text_exec(port as u64).as_str());
    let mut addrs: Vec<Vec<char>> = Vec::new();
    addrs.push(address(chars_of(host).as_slice(), &pt));
    addrs.push(address(chars_of("127.0.0.1").as_slice(), &pt));
    addrs.push(address(chars_of("[::1]").as_slice(), &pt));
    addrs.push(address(chars_of("localhost").as_slice(), &pt));
    proof {
        reveal_strlit("127.0.0.1");
        reveal_strlit("[::1]");
        reveal_strlit("localhost");
        reveal_strlit("127.0.0.1:");
        reveal_strlit("[::1]:");
        reveal_strlit("localhost:");
        reveal_strlit(":");
        let ca = console_addresses(host@, port);
        assert(pt@ == nat_text(port as nat));
        assert("127.0.0.1:"@ =~= "127.0.0.1"@ + seq![':']);
        assert("[::1]:"@ =~= "[::1]"@ + seq![':']);
        assert("localhost:"@ =~= "localhost"@ + seq![':']);
        assert(":"@ =~= seq![':']);
        assert(addrs@[0]@ =~= ca[0]);
        assert(addrs@[1]@ =~= ca[1]);
        assert(addrs@[2]@ =~= ca[2]);
        assert(addrs@[3]@ =~= ca[3]);
        assert(addrs@.map_values(|a: Vec<char>| a@) =~= ca);
    }
    if let Some(h) = host_header {
        if contains_address(&addrs, chars_of(h).as_slice()) {
            return true;
        }
    }
    if let Some(o) = origin {
        proof {
            reveal_strlit("http://");
            reveal_strlit("https://");
        }
        let a = strip_all_exec(chars_of(o).as_slice(), chars_of("http://").as_slice());
        let b = strip_all_exec(a.as_slice(), chars_of("https://").as_slice());
        if contains_address(&addrs, b.as_slice()) {
            return true;
        }
    }
    if let Some(rf) = referer {
        let rc = chars_of(rf);
        proof {
            reveal_strlit("://");
        }
        let sep = chars_of("://");
        if let Some(a) = find_from_exec(rc.as_slice(), sep.as_slice()) {
            proof {
                lemma_find_from(rc@, sep@, 0);
                assert(sep@.len() == 3);
                assert(occurs_at(rc@, a as int, sep@));
                assert(a + 3 <= rc.len());
            }
            let start = a + 3;
            let mut rest: Vec<char> = Vec::new();
            let mut k = start;
            while k < rc.len()
                invariant
                    start <= k <= rc@.len(),
                    rest@ == rc@.subrange(start as int, k as int),
                decreases rc.len() - k,
            {
                rest.push(rc[k]);
                k += 1;
                proof {
                    assert(rest@ =~= rc@.subrange(start as int, k as int));
                }
            }
            proof {
                assert(rest@ =~= rc@.skip(a + 3));
            }
            let b = find_from_exec(rest.as_slice(), sep.as_slice());
            let end = match b {
                None => rest.len(),
                Some(bi) => {
                    proof {
                        lemma_find_from(rest@, sep@, 0);
                    }
                    bi
                },
            };
            let mut piece: Vec<char> = Vec::new();
            let mut q: usize = 0;
            while q < end && rest[q] != '/'
                invariant
                    q <= end <= rest@.len(),
                    piece@ == rest@.subrange(0, q as int),
                    piece_end(rest@.take(end as int), '/', 0) == piece_end(rest@.take(end as int), '/', q as int),
                decreases end - q,
            {
                piece.push(rest[q]);
                q += 1;
                proof {
                    assert(piece@ =~= rest@.subrange(0, q as int));
                }
            }
            proof {
                let pc = rest@.take(end as int);
                assert(piece_end(pc, '/', q as int) == q);
                assert(piece@ =~= pc.take(q as int));
                if b is None {
                    assert(pc =~= rest@);
                }
            }
            if contains_address(&addrs, piece.as_slice()) {
                return true;
            }
        }
    }
    false
}


/// The view of a result of strings.
pub open spec fn result_view(r: Result<String, String>) -> Result<Seq<char>, Seq<char>> {
    match r {
        Ok(s) => Ok(s@),
        Err(e) => Err(e@),
    }
}

/// A pasted login key: trimmed, and refused when nothing is left.
pub open spec fn spec_login_token(token: Seq<char>) -> Result<Seq<char>, Seq<char>> {
    if trim(token).len() == 0 {
        Err("Authorization key cannot be empty"@)
    } else {
        Ok(trim(token))
    }
}

/// A pasted login key (see [`spec_login_token`]).
pub fn login_token(token: &str) -> (r: Result<String, String>)
    ensures
        result_view(r) == spec_login_token(token@),
{
    let t = str_trim(token);
    if chars_of(t).len() == 0 {
        Err(String::from_str("Authorization key cannot be empty"))
    } else {
        Ok(owned(t))
    }
}

/// What a login grants with a key's status and role: an active key's
/// permissions (`root` for the `admin` role, else the role itself), or the
/// refusal of a key that is not active.
pub open spec fn spec_login_grant(status: Seq<char>, role: Seq<char>) -> Result<Seq<char>, Seq<char>> {
    if status != "active"@ {
        Err("Authentication failed: This key has been revoked."@)
    } else if role == "admin"@ {
        Ok("root"@)
    } else {
        Ok(role)
    }
}

/// What a login grants (see [`spec_login_grant`]).
pub fn login_grant(status: &str, role: &str) -> (r: Result<String, String>)
    ensures
        result_view(r) == spec_login_grant(status@, role@),
{
    proof {
        reveal_strlit("active");
        reveal_strlit("admin");
    }
    if !chars_eq_str(chars_of(status).as_slice(), "active") {
        return Err(String::from_str("Authentication failed: This key has been revoked."));
    }
    if chars_eq_str(chars_of(role).as_slice(), "admin") {
        Ok(String::from_str("root"))
    } else {
        Ok(owned(role))
    }
}

/// The roles a key can have.
pub open spec fn is_known_role(r: Seq<char>) -> bool {
    r == "admin"@ || r == "read-only"@ || r == "write"@ || r == "write-delete"@
}

/// A role change: the requested role, trimmed and lowercased, must be a
/// known role, and the key id, trimmed, must not be empty; gives the role
/// and the key id.
pub open spec fn spec_role_change(role: Seq<char>, key_id: Seq<char>) -> Result<(Seq<char>, Seq<char>), Seq<char>> {
    let r = lowercase_text(trim(role));
    if !is_known_role(r) {
        Err("Invalid role"@)
    } else if trim(key_id).len() == 0 {
        Err("Key ID cannot be empty"@)
    } else {
        Ok((r, trim(key_id)))
    }
}

/// A role change request (see [`spec_role_change`]).
pub fn role_change(role: &str, key_id: &str) -> (r: Result<(String, String), String>)
    ensures
        match r {
            Ok((a, b)) => spec_role_change(role@, key_id@) == Ok::<(Seq<char>, Seq<char>), Seq<char>>((a@, b@)),
            Err(e) => spec_role_change(role@, key_id@) == Err::<(Seq<char>, Seq<char>), Seq<char>>(e@),
        },
{
    let r = str_to_lowercase(str_trim(role));
    let rc = chars_of(r.as_str());
    proof {
        reveal_strlit("admin");
        reveal_strlit("read-only");
        reveal_strlit("write");
        reveal_strlit("write-delete");
    }
    if !(chars_eq_str(rc.as_slice(), "admin") || chars_eq_str(rc.as_slice(), "read-only") || chars_eq_str(
        rc.as_slice(),
        "write",
    ) || chars_eq_str(rc.as_slice(), "write-delete")) {
        return Err(String::from_str("Invalid role"));
    }
    let id = str_trim(key_id);
    if chars_of(id).len() == 0 {
        return Err(String::from_str("Key ID cannot be empty"));
    }
    Ok((r, owned(id)))
}

/// A key id named by a request: trimmed, and refused when nothing is left.
pub open spec fn spec_key_id(key_id: Seq<char>) -> Result<Seq<char>, Seq<char>> {
    if trim(key_id).len() == 0 {
        Err("Key ID cannot be empty"@)
    } else {
        Ok(trim(key_id))
    }
}

/// A key id named by a request (see [`spec_key_id`]).
pub fn request_key_id(key_id: &str) -> (r: Result<String, String>)
    ensures
        result_view(r) == spec_key_id(key_id@),
{
    let id = str_trim(key_id);
    if chars_of(id).len() == 0 {
        Err(String::from_str("Key ID cannot be empty"))
    } else {
        Ok(owned(id))
    }
}

} // verus!

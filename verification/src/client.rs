//! Where a client connects and what it presents: the server address read
//! from a `liven://host:port?auth_key=...` string, and the token sent in the
//! connect frame.
use crate::access::{piece_end, pieces_from, split_char};
use crate::shell::{occurs_at, occurs_at_exec};
use crate::text::{chars_eq_str, chars_of, owned, string_of};
use vstd::prelude::*;

verus! {

/// The last `auth_key` value among `&`-separated `name=value` pairs (a pair
/// counts only when it splits at `=` into exactly two parts).
pub open spec fn auth_key_of(pairs: Seq<Seq<char>>) -> Option<Seq<char>>
    decreases pairs.len(),
{
    if pairs.len() == 0 {
        None
    } else {
        let kv = pieces_from(pairs.last(), '=', 0);
        if kv.len() == 2 && kv[0] == "auth_key"@ {
            Some(kv[1])
        } else {
            auth_key_of(pairs.drop_last())
        }
    }
}

/// An address without its `liven://` scheme.
pub open spec fn without_scheme(addr: Seq<char>) -> Seq<char> {
    if occurs_at(addr, 0, "liven://"@) {
        addr.skip(8)
    } else {
        addr
    }
}

/// The socket address of a connection string: up to its first `?`.
pub open spec fn spec_socket_address(addr: Seq<char>) -> Seq<char> {
    let s = without_scheme(addr);
    s.take(piece_end(s, '?', 0))
}

/// The auth key that a connection string carries after its first `?`.
pub open spec fn spec_address_auth_key(addr: Seq<char>) -> Option<Seq<char>> {
    let s = without_scheme(addr);
    let q = piece_end(s, '?', 0);
    if q >= s.len() {
        None
    } else {
        auth_key_of(pieces_from(s.skip(q + 1), '&', 0))
    }
}

/// The token a client presents: the address's auth key, else its own id
/// when the security mode is `auth_key`; none otherwise.
pub open spec fn spec_connect_token(addr: Seq<char>, client_id: Seq<char>, mode: Seq<char>) -> Option<Seq<char>> {
    match spec_address_auth_key(addr) {
        Some(k) => Some(k),
        None => if mode == "auth_key"@ {
            Some(client_id)
        } else {
            None
        },
    }
}

/// Where and how a client connects.
#[derive(Debug, PartialEq, Eq)]
pub struct ConnectTarget {
    /// The socket address to dial.
    pub address: String,
    /// The token of the connect frame, when the client authenticates.
    pub token: Option<String>,
}

fn sub_chars(s: &[char], a: usize, b: usize) -> (r: Vec<char>)
    requires
        a <= b <= s@.len(),
    ensures
        r@ == s@.subrange(a as int, b as int),
{
    let mut r: Vec<char> = Vec::new();
    let mut k = a;
    while k < b
        invariant
            a <= k <= b <= s@.len(),
            r@ == s@.subrange(a as int, k as int),
        decreases b - k,
    {
        r.push(s[k]);
        k += 1;
        proof {
            assert(r@ =~= s@.subrange(a as int, k as int));
        }
    }
    r
}

/// Where a client connects and the token it presents, from the connection
/// string, the client's id and the security mode (see
/// [`spec_socket_address`] and [`spec_connect_token`]).
pub fn connect_target(addr: &str, client_id: &str, mode: &str) -> (r: ConnectTarget)
    ensures
        r.address@ == spec_socket_address(addr@),
        crate::cli::opt_view(r.token) == spec_connect_token(addr@, client_id@, mode@),
{
    let a = chars_of(addr);
    let scheme = chars_of("liven://");
    proof {
        reveal_strlit("liven://");
        reveal_strlit("auth_key");
    }
    let s = if occurs_at_exec(a.as_slice(), 0, scheme.as_slice()) {
        sub_chars(a.as_slice(), 8, a.len())
    } else {
        sub_chars(a.as_slice(), 0, a.len())
    };
    proof {
        assert(a@.subrange(8, a@.len() as int) =~= a@.skip(8));
        assert(a@.subrange(0, a@.len() as int) =~= a@);
        assert(s@ == without_scheme(addr@));
    }
    let mut q: usize = 0;
    while q < s.len() && s[q] != '?'
        invariant
            q <= s@.len(),
            piece_end(s@, '?', 0) == piece_end(s@, '?', q as int),
        decreases s.len() - q,
    {
        q += 1;
    }
    let address = string_of(sub_chars(s.as_slice(), 0, q).as_slice());
    proof {
        assert(s@.subrange(0, q as int) =~= s@.take(q as int));
    }
    let mut key: Option<String> = None;
    if q < s.len() {
        let rest = sub_chars(s.as_slice(), q + 1, s.len());
        let pairs = split_char(rest.as_slice(), '&');
        let ghost pv = pairs@.map_values(|v: Vec<char>| v@);
        proof {
            assert(rest@ =~= s@.skip(q + 1));
        }
        let mut i: usize = 0;
        proof {
            assert(pv.take(0) =~= Seq::<Seq<char>>::empty());
        }
        while i < pairs.len()
            invariant
                i <= pairs@.len(),
                pv == pairs@.map_values(|v: Vec<char>| v@),
                crate::cli::opt_view(key) == auth_key_of(pv.take(i as int)),
            decreases pairs.len() - i,
        {
            let kv = split_char(pairs[i].as_slice(), '=');
            proof {
                assert(pv.take(i + 1).drop_last() =~= pv.take(i as int));
                assert(pv.take(i + 1).last() == pairs@[i as int]@);
            }
            if kv.len() == 2 && chars_eq_str(kv[0].as_slice(), "auth_key") {
                key = Some(string_of(kv[1].as_slice()));
            } else {
                proof {
                    let kvv = kv@.map_values(|v: Vec<char>| v@);
                    if kv@.len() == 2 {
                        assert(kvv[0] == kv@[0]@);
                    }
                }
            }
            i += 1;
        }
        proof {
            assert(pv.take(i as int) =~= pv);
        }
    }
    let token = match key {
        Some(k) => Some(k),
        None => {
            proof {
                reveal_strlit("auth_key");
            }
            if chars_eq_str(chars_of(mode).as_slice(), "auth_key") {
                Some(owned(client_id))
            } else {
                None
            }
        },
    };
    ConnectTarget { address, token }
}

} // verus!

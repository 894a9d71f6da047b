//! Addresses as text: the proxy definition given on the command line and the
//! label under which a client is counted.

use vstd::prelude::*;

verus! {

/// The error type of `std::io`, carried through by the signatures that keep
/// it; nothing is known of a value of it.
#[verifier::external_type_specification]
#[verifier::external_body]
pub struct ExIoError(std::io::Error);

/// Position of the first `c` in `s`, or `s.len()` where `s` holds none.
pub open spec fn find_char(s: Seq<char>, c: char) -> int
    decreases s.len(),
{
    if s.len() == 0 || s[0] == c {
        0
    } else {
        1 + find_char(s.drop_first(), c)
    }
}

/// `find_char` is the least index that holds `c`.
pub proof fn lemma_find_char(s: Seq<char>, c: char)
    ensures
        0 <= find_char(s, c) <= s.len(),
        find_char(s, c) < s.len() ==> s[find_char(s, c)] == c,
        forall|j: int| 0 <= j < find_char(s, c) ==> s[j] != c,
    decreases s.len(),
{
    if s.len() == 0 || s[0] == c {
    } else {
        let t = s.drop_first();
        lemma_find_char(t, c);
        assert forall|j: int| 0 <= j < find_char(s, c) implies s[j] != c by {
            if j > 0 {
                assert(s[j] == t[j - 1]);
            }
        }
    }
}

/// An index that holds `c` (or the length) with no `c` before it is `find_char`.
pub proof fn lemma_find_char_unique(s: Seq<char>, c: char, i: int)
    requires
        0 <= i <= s.len(),
        i < s.len() ==> s[i] == c,
        forall|j: int| 0 <= j < i ==> s[j] != c,
    ensures
        find_char(s, c) == i,
{
    lemma_find_char(s, c);
    let f = find_char(s, c);
    if f < i {
        assert(s[f] == c);
    } else if f > i {
        assert(s[i] != c);
    }
}

/// The bind address of a proxy definition: every interface, on the port
/// written before the first `:`.
pub open spec fn proxy_local(def: Seq<char>) -> Seq<char> {
    "0.0.0.0:"@ + def.subrange(0, find_char(def, ':'))
}

/// The upstream of a proxy definition: what follows the first `:`, taken
/// literally; empty where the definition names no upstream.
pub open spec fn proxy_remote(def: Seq<char>) -> Seq<char> {
    if find_char(def, ':') < def.len() {
        def.subrange(find_char(def, ':') + 1, def.len() as int)
    } else {
        Seq::empty()
    }
}

/// Index of the first `c` in `s`, or the number of characters in `s`.
pub fn position_of(s: &str, c: char) -> (i: usize)
    ensures
        i == find_char(s@, c),
{
    let n = s.unicode_len();
    let mut i: usize = 0;
    while i < n
        invariant
            n == s@.len(),
            i <= n,
            forall|j: int| 0 <= j < i ==> s@[j] != c,
        decreases n - i,
    {
        if s.get_char(i) == c {
            proof {
                lemma_find_char_unique(s@, c, i as int);
            }
            return i;
        }
        i += 1;
    }
    proof {
        lemma_find_char_unique(s@, c, i as int);
    }
    i
}

/// Splits a proxy definition, `local` or `local:host:port`, into the address
/// to bind and the upstream to dial. Never fails: a definition without `:`
/// has an empty upstream, which selects transparent mode.
pub fn parse_proxy_addresses(proxy_def: &str) -> (r: Result<(String, String), std::io::Error>)
    ensures
        r is Ok,
        r->Ok_0.0@ == proxy_local(proxy_def@),
        r->Ok_0.1@ == proxy_remote(proxy_def@),
{
    let n = proxy_def.unicode_len();
    let pos = position_of(proxy_def, ':');
    proof {
        lemma_find_char(proxy_def@, ':');
    }
    let local = String::from_str("0.0.0.0:").concat(proxy_def.substring_char(0, pos));
    let remote = if pos < n {
        String::from_str(proxy_def.substring_char(pos + 1, n))
    } else {
        String::new()
    };
    Ok((local, remote))
}

/// A decimal digit.
pub open spec fn is_digit(c: char) -> bool {
    48 <= c as u32 <= 57
}

/// How many decimal digits `s` ends with.
pub open spec fn trailing_digits(s: Seq<char>) -> nat
    decreases s.len(),
{
    if s.len() > 0 && is_digit(s.last()) {
        1 + trailing_digits(s.drop_last())
    } else {
        0
    }
}

/// A socket address without its port: where `addr` ends with `:` and at least
/// one decimal digit, what stands before that `:`; otherwise `addr` as it is.
/// Only the last `:` counts, so the colons of a bracketed IPv6 address stay.
pub open spec fn client_label(addr: Seq<char>) -> Seq<char> {
    let digits = trailing_digits(addr);
    let colon = addr.len() - digits - 1;
    if digits > 0 && colon >= 0 && addr[colon] == ':' {
        addr.subrange(0, colon)
    } else {
        addr
    }
}

/// Digits from `i` to the end add to the trailing digits of what stands
/// before `i`.
proof fn lemma_trailing_digits_split(s: Seq<char>, i: int)
    requires
        0 <= i <= s.len(),
        forall|j: int| i <= j < s.len() ==> is_digit(#[trigger] s[j]),
    ensures
        trailing_digits(s) == (s.len() - i) + trailing_digits(s.take(i)),
    decreases s.len() - i,
{
    if i == s.len() {
        assert(s.take(i) =~= s);
    } else {
        let t = s.drop_last();
        assert(is_digit(s[s.len() - 1]));
        assert forall|j: int| i <= j < t.len() implies is_digit(#[trigger] t[j]) by {
            assert(t[j] == s[j]);
        }
        lemma_trailing_digits_split(t, i);
        assert(t.take(i) =~= s.take(i));
    }
}

/// Stripping the port never lengthens an address, and what is kept is a
/// prefix of it.
pub proof fn lemma_client_label_is_prefix(addr: Seq<char>)
    ensures
        client_label(addr).len() <= addr.len(),
        client_label(addr) == addr.take(client_label(addr).len() as int),
{
    let digits = trailing_digits(addr);
    let colon = addr.len() - digits - 1;
    if digits > 0 && colon >= 0 && addr[colon] == ':' {
    } else {
        assert(addr.take(addr.len() as int) =~= addr);
    }
}

fn is_digit_char(c: char) -> (r: bool)
    ensures
        r == is_digit(c),
{
    let code = c as u32;
    48 <= code && code <= 57
}

/// The label under which a client is counted: its socket address, written as
/// text, with the trailing `:port` removed, so that one client is one label
/// whatever port it connects from.
pub fn format_client_address(sockaddr: &str) -> (label: String)
    ensures
        label@ == client_label(sockaddr@),
{
    let n = sockaddr.unicode_len();
    let mut i: usize = n;
    while i > 0 && is_digit_char(sockaddr.get_char(i - 1))
        invariant
            n == sockaddr@.len(),
            i <= n,
            forall|j: int| i <= j < n ==> is_digit(#[trigger] sockaddr@[j]),
        decreases i,
    {
        i -= 1;
    }
    proof {
        lemma_trailing_digits_split(sockaddr@, i as int);
        let head = sockaddr@.take(i as int);
        if i > 0 {
            assert(head.last() == sockaddr@[i - 1]);
        }
        assert(trailing_digits(head) == 0);
    }
    if i < n && i > 0 && sockaddr.get_char(i - 1) == ':' {
        String::from_str(sockaddr.substring_char(0, i - 1))
    } else {
        String::from_str(sockaddr)
    }
}

} // verus!

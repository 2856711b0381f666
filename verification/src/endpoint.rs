//! Port numbers: the one that ends a socket address, and the one a user names.

use crate::number::{decimal, lemma_literal_of_decimal, parse_bounded, unsigned_literal};
use crate::text::{chars_of, is_digit, lemma_suffix_len_unique, suffix_len};
use vstd::prelude::*;

verus! {

/// The predicate "is not a colon".
pub open spec fn non_colon() -> spec_fn(char) -> bool {
    |c: char| c != ':'
}

/// The port that ends the socket address `s`: the number written after the
/// last colon of `s`, if `s` has a colon and a number of at most 65535 follows
/// it to the end.
pub open spec fn endpoint_port(s: Seq<char>) -> Option<u16> {
    let n = suffix_len(s, non_colon());
    if n == s.len() {
        None
    } else {
        match unsigned_literal(s.skip(s.len() - n), 0xffff) {
            Some(v) => Some(v as u16),
            None => None,
        }
    }
}

/// The port at the end of `chars[from..]`, as `endpoint_port` defines it.
pub(crate) fn port_of_chars(chars: &Vec<char>, from: usize) -> (r: Option<u16>)
    requires
        from <= chars.len(),
    ensures
        r == endpoint_port(chars@.skip(from as int)),
{
    let ghost s = chars@.skip(from as int);
    let mut i: usize = chars.len();
    while i > from && chars[i - 1] != ':'
        invariant
            from <= i <= chars.len(),
            forall|j: int| i <= j < chars.len() ==> chars@[j] != ':',
        decreases i,
    {
        i -= 1;
    }
    proof {
        assert forall|j: int| s.len() - (chars.len() - i) <= j < s.len() implies non_colon()(
            #[trigger] s[j],
        ) by {
            assert(s[j] == chars@[from + j]);
        }
        if i > from {
            assert(s[s.len() - (chars.len() - i) - 1] == chars@[i - 1]);
        }
        lemma_suffix_len_unique(s, non_colon(), chars.len() - i);
        assert(s.skip(s.len() - (chars.len() - i)) =~= chars@.subrange(
            i as int,
            chars.len() as int,
        ));
    }
    if i == from {
        return None;
    }
    match parse_bounded(chars, i, chars.len(), 0xffff) {
        Some(v) => Some(v as u16),
        None => None,
    }
}

/// Extracts the port from a socket address such as `*:80` or `[::1]:5432`.
/// An address without a colon, or with anything but a port after its last
/// colon, has none.
pub fn parse_port_from_endpoint(endpoint: &str) -> (r: Option<u16>)
    ensures
        r == endpoint_port(endpoint@),
{
    let chars = chars_of(endpoint);
    assert(chars@.skip(0) =~= endpoint@);
    port_of_chars(&chars, 0)
}

/// What a port named on the command line is read as: the port, or the words
/// that say why it is refused.
pub open spec fn port_argument(s: Seq<char>) -> Result<u16, Seq<char>> {
    match unsigned_literal(s, 0xffff) {
        None => Err("invalid port: "@ + s),
        Some(v) => if v == 0 {
            Err("port 0 is reserved and cannot be queried"@)
        } else {
            Ok(v as u16)
        },
    }
}

/// The view of what `parse_port` returns.
pub open spec fn port_result_view(r: Result<u16, String>) -> Result<u16, Seq<char>> {
    match r {
        Ok(port) => Ok(port),
        Err(message) => Err(message@),
    }
}

/// Reads a port that a user named. It must be a number from 1 to 65535.
pub fn parse_port(s: &str) -> (r: Result<u16, String>)
    ensures
        port_result_view(r) == port_argument(s@),
{
    let chars = chars_of(s);
    assert(chars@.subrange(0, chars.len() as int) =~= s@);
    match parse_bounded(&chars, 0, chars.len(), 0xffff) {
        None => {
            let mut message = String::from_str("invalid port: ");
            message.append(s);
            Err(message)
        },
        Some(v) => {
            if v == 0 {
                Err(String::from_str("port 0 is reserved and cannot be queried"))
            } else {
                Ok(v as u16)
            }
        },
    }
}

/// The port of an address is the number written after its last colon,
/// whatever stands before that colon: any `host`, a colon and a number of at
/// most 65535 give that number.
pub proof fn lemma_endpoint_port_of_literal(host: Seq<char>, number: Seq<char>)
    requires
        unsigned_literal(number, 0xffff) is Some,
    ensures
        endpoint_port(host + seq![':'] + number) == Some(
            unsigned_literal(number, 0xffff).unwrap() as u16,
        ),
{
    let s = host + seq![':'] + number;
    let n = number.len() as int;
    assert forall|i: int| s.len() - n <= i < s.len() implies non_colon()(#[trigger] s[i]) by {
        let k = i - (s.len() - n);
        assert(s[i] == number[k]);
        if k > 0 && number[0] == '+' {
            assert(is_digit(number.skip(1)[k - 1]));
        } else if number[0] != '+' {
            assert(is_digit(number[k]));
        }
    }
    assert(s[s.len() - n - 1] == ':');
    lemma_suffix_len_unique(s, non_colon(), n);
    assert(s.skip(s.len() - n) =~= number);
}

/// An address that ends with a colon and a port in base ten has that port.
pub proof fn lemma_endpoint_port_of_decimal(host: Seq<char>, port: u16)
    ensures
        endpoint_port(host + seq![':'] + decimal(port as nat)) == Some(port),
{
    lemma_literal_of_decimal(port as nat, 0xffff);
    lemma_endpoint_port_of_literal(host, decimal(port as nat));
}

/// An address without a colon has no port.
pub proof fn lemma_endpoint_without_colon(s: Seq<char>)
    requires
        !s.contains(':'),
    ensures
        endpoint_port(s) is None,
{
    assert forall|i: int| s.len() - s.len() <= i < s.len() implies non_colon()(#[trigger] s[i]) by {
        assert(s.contains(s[i]));
    }
    lemma_suffix_len_unique(s, non_colon(), s.len() as int);
}

/// An address whose last colon is followed by anything but a number of at
/// most 65535 has no port.
pub proof fn lemma_endpoint_without_number(host: Seq<char>, tail: Seq<char>)
    requires
        !tail.contains(':'),
        unsigned_literal(tail, 0xffff) is None,
    ensures
        endpoint_port(host + seq![':'] + tail) is None,
{
    let s = host + seq![':'] + tail;
    let n = tail.len() as int;
    assert forall|i: int| s.len() - n <= i < s.len() implies non_colon()(#[trigger] s[i]) by {
        assert(s[i] == tail[i - (s.len() - n)]);
        assert(tail.contains(s[i]));
    }
    assert(s[s.len() - n - 1] == ':');
    lemma_suffix_len_unique(s, non_colon(), n);
    assert(s.skip(s.len() - n) =~= tail);
}

} // verus!

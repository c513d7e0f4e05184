use vstd::prelude::*;

use crate::text::{
    arrow_from, chars_of, copy_range, find_arrow, last_index_of, lemma_last_index_bounds,
    parse_unsigned, parse_unsigned_spec, rfind_char, string_of,
};

verus! {

/// A port number as `str::parse::<u16>` reads it, 0 where it fails.
pub open spec fn port_or_zero(s: Seq<char>) -> u16 {
    match parse_unsigned_spec(s, 65535) {
        Some(v) => v as u16,
        None => 0,
    }
}

/// An endpoint `host:port` split at its last colon; without a colon, the whole text and port 0.
pub open spec fn address_port(s: Seq<char>) -> (Seq<char>, u16) {
    let i = last_index_of(s, ':');
    if i >= 0 {
        (s.subrange(0, i), port_or_zero(s.subrange(i + 1, s.len() as int)))
    } else {
        (s, 0)
    }
}

/// The local endpoint of a `local->remote` field: what stands before the first `"->"`.
pub open spec fn local_endpoint(s: Seq<char>) -> Seq<char> {
    let a = arrow_from(s, 0);
    if a >= 0 {
        s.subrange(0, a)
    } else {
        s
    }
}

pub fn split_address(s: &Vec<char>) -> (r: (Vec<char>, u16))
    ensures
        (r.0@, r.1) == address_port(s@),
{
    proof {
        lemma_last_index_bounds(s@, ':');
    }
    match rfind_char(s, ':') {
        Some(i) => {
            let n = s.len();
            let host = copy_range(s, 0, i);
            let digits = copy_range(s, i + 1, n);
            let port: u16 = match parse_unsigned(&digits, 65535) {
                Some(v) => v as u16,
                None => 0,
            };
            (host, port)
        },
        None => (copy_range(s, 0, s.len()), 0),
    }
}

pub fn local_part(s: &Vec<char>) -> (r: Vec<char>)
    ensures
        r@ == local_endpoint(s@),
{
    match find_arrow(s) {
        Some(a) => copy_range(s, 0, a),
        None => copy_range(s, 0, s.len()),
    }
}

/// Splits an endpoint as `lsof` prints it into its host and its port.
pub fn parse_address_port(addr: &str) -> (r: (String, u16))
    ensures
        (r.0@, r.1) == address_port(addr@),
{
    let (host, port) = split_address(&chars_of(addr));
    (string_of(&host), port)
}

/// Splits an endpoint as `netstat` prints it into its host and its port.
pub fn parse_windows_address(addr: &str) -> (r: (String, u16))
    ensures
        (r.0@, r.1) == address_port(addr@),
{
    let (host, port) = split_address(&chars_of(addr));
    (string_of(&host), port)
}

} // verus!

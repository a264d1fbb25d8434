//! Reading the scan's two inputs out of newline-delimited text: the
//! candidate addresses and the candidate ports.

use vstd::prelude::*;

use crate::numbers::parse_u16_spec;
use crate::numbers::parse_u16;
use crate::text::{split_into_lines, split_lines, trim_spec, trim_str};

verus! {

/// The lines kept from an address file: every line that is not blank,
/// kept verbatim.
pub open spec fn kept_addresses(lines: Seq<Seq<char>>) -> Seq<Seq<char>>
    decreases lines.len(),
{
    if lines.len() == 0 {
        Seq::empty()
    } else {
        let rest = kept_addresses(lines.drop_last());
        if trim_spec(lines.last()).len() > 0 {
            rest.push(lines.last())
        } else {
            rest
        }
    }
}

/// The addresses read from a whole address file.
pub open spec fn spec_parse_address_list(content: Seq<char>) -> Seq<Seq<char>> {
    kept_addresses(split_lines(content))
}

/// The port a line contributes: its trimmed text read as a 16-bit
/// decimal number, zero and unreadable lines dropped.
pub open spec fn port_of_line(l: Seq<char>) -> Option<u16> {
    match parse_u16_spec(trim_spec(l)) {
        Some(p) => if p > 0 {
            Some(p)
        } else {
            None
        },
        None => None,
    }
}

/// The ports kept from a port file's lines, in order.
pub open spec fn kept_ports(lines: Seq<Seq<char>>) -> Seq<u16>
    decreases lines.len(),
{
    if lines.len() == 0 {
        Seq::empty()
    } else {
        let rest = kept_ports(lines.drop_last());
        match port_of_line(lines.last()) {
            Some(p) => rest.push(p),
            None => rest,
        }
    }
}

/// The ports read from a whole port file.
pub open spec fn spec_parse_port_list(content: Seq<char>) -> Seq<u16> {
    kept_ports(split_lines(content))
}

/// Splits an address file into candidate addresses, as
/// [`spec_parse_address_list`] describes: blank lines are skipped and
/// every other line is taken verbatim.
pub fn parse_address_list(content: &str) -> (r: Vec<String>)
    ensures
        r.deep_view() == spec_parse_address_list(content@),
{
    let lines = split_into_lines(content);
    let mut out: Vec<String> = Vec::new();
    let n = lines.len();
    proof {
        assert(lines.deep_view().take(0) =~= Seq::<Seq<char>>::empty());
    }
    let mut i: usize = 0;
    while i < n
        invariant
            n == lines@.len(),
            lines.deep_view() == split_lines(content@),
            i <= n,
            out.deep_view() == kept_addresses(lines.deep_view().take(i as int)),
        decreases n - i,
    {
        let ghost prefix = lines.deep_view().take(i as int);
        let ghost next = lines.deep_view().take(i as int + 1);
        proof {
            assert(next.drop_last() =~= prefix);
            assert(next.last() == lines.deep_view()[i as int]);
            assert(lines.deep_view()[i as int] == lines@[i as int]@);
        }
        let t = trim_str(lines[i].as_str());
        if !t.as_str().is_empty() {
            let ghost old_out = out.deep_view();
            out.push(lines[i].clone());
            proof {
                assert(out.deep_view() =~= old_out.push(lines@[i as int]@));
            }
        }
        i = i + 1;
    }
    proof {
        assert(lines.deep_view().take(n as int) =~= lines.deep_view());
    }
    out
}

/// Reads a port file into candidate ports, as [`spec_parse_port_list`]
/// describes: each line is trimmed and read as a decimal number;
/// unreadable and zero lines are silently dropped.
pub fn parse_port_list(content: &str) -> (r: Vec<u16>)
    ensures
        r@ == spec_parse_port_list(content@),
{
    let lines = split_into_lines(content);
    let mut out: Vec<u16> = Vec::new();
    let n = lines.len();
    proof {
        assert(lines.deep_view().take(0) =~= Seq::<Seq<char>>::empty());
    }
    let mut i: usize = 0;
    while i < n
        invariant
            n == lines@.len(),
            lines.deep_view() == split_lines(content@),
            i <= n,
            out@ == kept_ports(lines.deep_view().take(i as int)),
        decreases n - i,
    {
        let ghost prefix = lines.deep_view().take(i as int);
        let ghost next = lines.deep_view().take(i as int + 1);
        proof {
            assert(next.drop_last() =~= prefix);
            assert(next.last() == lines.deep_view()[i as int]);
            assert(lines.deep_view()[i as int] == lines@[i as int]@);
        }
        let t = trim_str(lines[i].as_str());
        match parse_u16(t.as_str()) {
            Some(p) => {
                if p > 0 {
                    out.push(p);
                }
            },
            None => {},
        }
        i = i + 1;
    }
    proof {
        assert(lines.deep_view().take(n as int) =~= lines.deep_view());
    }
    out
}

} // verus!

//! Small helpers shared by the scanner: input validation, duration
//! formatting, and a completion-time estimate.

use vstd::prelude::*;

use crate::numbers::{
    all_digits, char_digit, dec_digits, digits_val, is_digit_char, parse_u16,
    parse_u16_spec,
};
use crate::numbers::append_decimal;
use crate::text::{first_index_of, lemma_first_index_of_at};

verus! {

/// True when `port` is a decimal literal naming a usable port: it reads
/// as a 16-bit number and that number is not zero.
pub fn is_valid_port(port: &str) -> (r: bool)
    ensures
        r == match parse_u16_spec(port@) {
            Some(p) => p > 0,
            None => false,
        },
{
    match parse_u16(port) {
        Some(num) => num > 0,
        None => false,
    }
}

/// One group of an IPv4 literal: one to three digits, no superfluous
/// leading zero, value at most 255.
pub open spec fn valid_octet(s: Seq<char>) -> bool {
    &&& 1 <= s.len() <= 3
    &&& all_digits(s)
    &&& (s.len() == 1 || s[0] != '0')
    &&& digits_val(s) <= 255
}

/// The dot-separated groups of `s`; empty groups are kept.
pub open spec fn dot_split(s: Seq<char>) -> Seq<Seq<char>>
    decreases s.len(),
{
    let i = first_index_of(s, '.');
    if i >= s.len() {
        seq![s]
    } else {
        seq![s.subrange(0, i as int)] + dot_split(s.subrange(i as int + 1, s.len() as int))
    }
}

/// True when `s` is an IPv4 literal: exactly four valid octets
/// separated by dots.
pub open spec fn valid_ipv4_spec(s: Seq<char>) -> bool {
    let groups = dot_split(s);
    groups.len() == 4 && (forall|g: int| 0 <= g < 4 ==> valid_octet(#[trigger] groups[g]))
}

/// Checks one dot-separated group, as [`valid_octet`] describes.
fn check_octet(s: &str, from: usize, to: usize) -> (r: bool)
    requires
        from <= to <= s@.len(),
        s@.len() <= usize::MAX,
    ensures
        r == valid_octet(s@.subrange(from as int, to as int)),
{
    let ghost g = s@.subrange(from as int, to as int);
    let len = to - from;
    if len == 0 || len > 3 {
        return false;
    }
    let mut i: usize = 0;
    let mut val: u32 = 0;
    while i < len
        invariant
            g == s@.subrange(from as int, to as int),
            from + len == to <= s@.len() <= usize::MAX,
            0 < len <= 3,
            i <= len,
            forall|k: int| 0 <= k < i ==> is_digit_char(#[trigger] g[k]),
            val as nat == digits_val(g.subrange(0, i as int)),
            val <= 999,
        decreases len - i,
    {
        let c = s.get_char(from + i);
        proof {
            assert(g[i as int] == s@[from + i]);
        }
        match char_digit(c) {
            None => {
                return false;
            },
            Some(d) => {
                proof {
                    assert(g.subrange(0, i as int + 1).drop_last() =~= g.subrange(0, i as int));
                    assert(g.subrange(0, i as int + 1).last() == g[i as int]);
                    crate::numbers::lemma_digits_val_bound(g.subrange(0, i as int + 1));
                }
                val = val * 10 + d as u32;
            },
        }
        i = i + 1;
    }
    proof {
        assert(g.subrange(0, len as int) =~= g);
    }
    if len > 1 && s.get_char(from) == '0' {
        proof {
            assert(g[0] == s@[from as int]);
        }
        return false;
    }
    val <= 255
}

/// True when `ip` is an IPv4 literal, as [`valid_ipv4_spec`] describes.
pub fn is_valid_ipv4(ip: &str) -> (r: bool)
    ensures
        r == valid_ipv4_spec(ip@),
{
    let n = ip.unicode_len();
    let mut start: usize = 0;
    let mut i: usize = 0;
    let mut groups_ok = true;
    let mut group_count: usize = 0;
    let ghost all = dot_split(ip@);
    proof {
        assert(ip@.subrange(0, n as int) =~= ip@);
        assert(all.skip(0) =~= all);
    }
    while i < n
        invariant
            n == ip@.len(),
            start <= i <= n,
            forall|k: int| start <= k < i ==> #[trigger] ip@[k] != '.',
            all == dot_split(ip@),
            group_count <= all.len(),
            group_count <= i,
            // the groups before the current one have been judged
            dot_split(ip@.subrange(start as int, n as int)) == all.skip(group_count as int),
            groups_ok == (forall|g: int|
                0 <= g < group_count ==> valid_octet(#[trigger] all[g])),
        decreases n - i,
    {
        let c = ip.get_char(i);
        if c == '.' {
            proof {
                let rem = ip@.subrange(start as int, n as int);
                assert forall|k: int| 0 <= k < i - start implies #[trigger] rem[k] != '.' by {
                    assert(rem[k] == ip@[k + start]);
                }
                assert(rem[i - start] == ip@[i as int]);
                lemma_first_index_of_at(rem, '.', i - start);
                assert(rem.subrange(0, i - start) =~= ip@.subrange(start as int, i as int));
                assert(rem.subrange(i - start + 1, rem.len() as int) =~= ip@.subrange(
                    i as int + 1,
                    n as int,
                ));
                assert(dot_split(rem) == seq![ip@.subrange(start as int, i as int)] + dot_split(
                    ip@.subrange(i as int + 1, n as int),
                ));
                assert(all.skip(group_count as int)[0] == ip@.subrange(start as int, i as int));
                assert(all.skip(group_count as int)[0] == all[group_count as int]);
                assert(all[group_count as int] == ip@.subrange(start as int, i as int));
                assert(all.skip(group_count as int + 1) =~= all.skip(
                    group_count as int,
                ).drop_first());
                assert((seq![ip@.subrange(start as int, i as int)] + dot_split(
                    ip@.subrange(i as int + 1, n as int),
                )).drop_first() =~= dot_split(ip@.subrange(i as int + 1, n as int)));
                assert(dot_split(ip@.subrange(i as int + 1, n as int)) =~= all.skip(
                    group_count as int + 1,
                ));
            }
            let ok = check_octet(ip, start, i);
            groups_ok = groups_ok && ok;
            group_count = group_count + 1;
            start = i + 1;
        }
        i = i + 1;
    }
    proof {
        let rem = ip@.subrange(start as int, n as int);
        assert forall|k: int| 0 <= k < rem.len() implies #[trigger] rem[k] != '.' by {
            assert(rem[k] == ip@[k + start]);
        }
        lemma_first_index_of_at(rem, '.', rem.len() as int);
        assert(dot_split(rem) == seq![rem]);
        assert(all.skip(group_count as int) =~= seq![rem]);
        assert(all.len() == group_count + 1);
        assert(all.skip(group_count as int)[0] == all[group_count as int]);
        assert(all[group_count as int] == rem);
    }
    let last_ok = check_octet(ip, start, n);
    let r = groups_ok && last_ok && group_count == 3;
    proof {
        if r {
            assert forall|g: int| 0 <= g < 4 implies valid_octet(#[trigger] all[g]) by {
                if g < 3 {
                } else {
                    assert(all[3] == ip@.subrange(start as int, n as int));
                }
            }
        } else {
            if all.len() == 4 && (forall|g: int| 0 <= g < 4 ==> valid_octet(#[trigger] all[g])) {
                assert(group_count == 3);
                assert(valid_octet(all[group_count as int]));
                assert(forall|g: int| 0 <= g < group_count ==> valid_octet(#[trigger] all[g]));
            }
        }
    }
    r
}

/// The two-digit, zero-padded rendering of `n`, falling back to the
/// plain decimal rendering when `n` has more than two digits.
pub open spec fn pad2(n: nat) -> Seq<char> {
    if n < 10 {
        seq!['0'] + dec_digits(n)
    } else {
        dec_digits(n)
    }
}

fn append_pad2(out: &mut String, n: u64)
    ensures
        final(out)@ == old(out)@ + pad2(n as nat),
{
    if n < 10 {
        proof {
            reveal_strlit("0");
        }
        out.append("0");
    }
    append_decimal(out, n);
    proof {
        assert(final(out)@ =~= old(out)@ + pad2(n as nat));
    }
}

/// How a duration in seconds reads: hours, minutes and seconds, each
/// two digits wide, with the leading components omitted when zero.
pub open spec fn format_duration_spec(seconds: nat) -> Seq<char> {
    let hours = seconds / 3600;
    let minutes = (seconds % 3600) / 60;
    let secs = seconds % 60;
    if hours > 0 {
        pad2(hours) + "h "@ + pad2(minutes) + "m "@ + pad2(secs) + "s"@
    } else if minutes > 0 {
        pad2(minutes) + "m "@ + pad2(secs) + "s"@
    } else {
        pad2(secs) + "s"@
    }
}

/// Renders a duration, as [`format_duration_spec`] describes.
pub fn format_duration(seconds: u64) -> (r: String)
    ensures
        r@ == format_duration_spec(seconds as nat),
{
    let hours = seconds / 3600;
    let minutes = (seconds % 3600) / 60;
    let secs = seconds % 60;
    let mut out = String::new();
    proof {
        reveal_strlit("h ");
        reveal_strlit("m ");
        reveal_strlit("s");
    }
    if hours > 0 {
        append_pad2(&mut out, hours);
        out.append("h ");
        append_pad2(&mut out, minutes);
        out.append("m ");
        append_pad2(&mut out, secs);
        out.append("s");
    } else if minutes > 0 {
        append_pad2(&mut out, minutes);
        out.append("m ");
        append_pad2(&mut out, secs);
        out.append("s");
    } else {
        append_pad2(&mut out, secs);
        out.append("s");
    }
    proof {
        assert(out@ =~= format_duration_spec(seconds as nat));
    }
    out
}

/// How the remaining time of a run is estimated: with no progress there
/// is nothing to extrapolate from; otherwise the remaining items are
/// assumed to take as long, per item, as the completed ones did.
pub open spec fn estimate_completion_spec(progress: nat, total: nat, elapsed: nat) -> Seq<char>
    recommends
        progress <= total,
{
    if progress == 0 {
        "N/A"@
    } else {
        let remaining = (total - progress) * elapsed / progress as int;
        if remaining > u64::MAX {
            format_duration_spec(u64::MAX as nat)
        } else {
            format_duration_spec(remaining as nat)
        }
    }
}

/// Estimates the remaining run time from the work finished so far, as
/// [`estimate_completion_spec`] describes.
pub fn estimate_completion_time(progress: usize, total: usize, elapsed_seconds: u64) -> (r: String)
    requires
        progress <= total,
    ensures
        r@ == estimate_completion_spec(progress as nat, total as nat, elapsed_seconds as nat),
{
    if progress == 0 {
        return String::from_str("N/A");
    }
    let remaining_items = (total - progress) as u128;
    let elapsed_wide = elapsed_seconds as u128;
    proof {
        assert(remaining_items * elapsed_wide <= u64::MAX as u128 * u64::MAX as u128)
            by (nonlinear_arith)
            requires
                remaining_items <= u64::MAX as u128,
                elapsed_wide <= u64::MAX as u128,
        ;
    }
    let remaining = remaining_items * elapsed_wide / progress as u128;
    if remaining > u64::MAX as u128 {
        format_duration(u64::MAX)
    } else {
        format_duration(remaining as u64)
    }
}

} // verus!


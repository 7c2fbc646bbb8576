//! The remote end of a connection as `lsof` wants it named, and the arguments
//! with which `lsof` lists the connections to it.

use crate::number::{append_decimal, append_hexadecimal, decimal, hexadecimal};
use vstd::prelude::*;
use vstd::string::StringExecFns;

verus! {

/// An internet address by its parts.
#[derive(Clone, Copy, Debug)]
pub enum IpAddress {
    /// An IPv4 address: its four octets, the first one first.
    V4 { octets: [u8; 4] },
    /// An IPv6 address: its eight 16-bit segments, the first one first.
    V6 { segments: [u16; 8] },
}

/// Whether the segments are those of an IPv4-mapped IPv6 address: eighty
/// zero bits, then sixteen one bits.
pub open spec fn is_ipv4_mapped(segments: Seq<u16>) -> bool {
    &&& segments[0] == 0
    &&& segments[1] == 0
    &&& segments[2] == 0
    &&& segments[3] == 0
    &&& segments[4] == 0
    &&& segments[5] == 0xffff
}

/// The octets of the IPv4 address held in the last two segments.
pub open spec fn embedded_ipv4(segments: Seq<u16>) -> Seq<u8> {
    seq![
        (segments[6] / 256) as u8,
        (segments[6] % 256) as u8,
        (segments[7] / 256) as u8,
        (segments[7] % 256) as u8,
    ]
}

/// An IPv4 address in dotted decimal.
pub open spec fn ipv4_text(octets: Seq<u8>) -> Seq<char> {
    decimal(octets[0] as nat) + seq!['.'] + decimal(octets[1] as nat) + seq!['.'] + decimal(
        octets[2] as nat,
    ) + seq!['.'] + decimal(octets[3] as nat)
}

/// The number of zero segments in a row from index `i` on.
pub open spec fn zero_run(segments: Seq<u16>, i: int) -> int
    decreases segments.len() - i,
{
    if 0 <= i < segments.len() && segments[i] == 0 {
        1 + zero_run(segments, i + 1)
    } else {
        0
    }
}

/// Among the indices below `upto`, the first at which the longest run of
/// zero segments starts.
pub open spec fn longest_zero_run(segments: Seq<u16>, upto: int) -> int
    decreases upto,
{
    if upto <= 1 {
        0
    } else {
        let before = longest_zero_run(segments, upto - 1);
        if zero_run(segments, upto - 1) > zero_run(segments, before) {
            upto - 1
        } else {
            before
        }
    }
}

/// Segments in hexadecimal, with a colon between each two.
pub open spec fn groups(segments: Seq<u16>) -> Seq<char>
    decreases segments.len(),
{
    if segments.len() == 0 {
        Seq::empty()
    } else if segments.len() == 1 {
        hexadecimal(segments[0] as nat)
    } else {
        groups(segments.drop_last()) + seq![':'] + hexadecimal(segments.last() as nat)
    }
}

/// An IPv6 address in its canonical text: hexadecimal segments without
/// leading zeros, and two colons in place of the longest run of two or more
/// zero segments, the first such run where several are as long.
pub open spec fn ipv6_text(segments: Seq<u16>) -> Seq<char> {
    let start = longest_zero_run(segments, segments.len() as int);
    let len = zero_run(segments, start);
    if len >= 2 {
        groups(segments.take(start)) + seq![':', ':'] + groups(segments.skip(start + len))
    } else {
        groups(segments)
    }
}

/// The target by which `lsof` selects the TCP connections to `port` at
/// `host`. An IPv4 address, and an IPv6 address that maps one, give
/// `4TCP@<ipv4>:<port>`; any other address gives `6TCP@[<ipv6>]:<port>`.
pub open spec fn target_text(host: IpAddress, port: u16) -> Seq<char> {
    match host {
        IpAddress::V4 { octets } => seq!['4', 'T', 'C', 'P', '@'] + ipv4_text(octets@) + seq![':']
            + decimal(port as nat),
        IpAddress::V6 { segments } => if is_ipv4_mapped(segments@) {
            seq!['4', 'T', 'C', 'P', '@'] + ipv4_text(embedded_ipv4(segments@)) + seq![':']
                + decimal(port as nat)
        } else {
            seq!['6', 'T', 'C', 'P', '@', '['] + ipv6_text(segments@) + seq![']', ':'] + decimal(
                port as nat,
            )
        },
    }
}

/// The texts of a list of strings.
pub open spec fn texts(list: Seq<String>) -> Seq<Seq<char>> {
    Seq::new(list.len(), |i: int| list[i]@)
}

/// The arguments with which `lsof` lists the TCP connections to `port` at
/// `host`: the selection by target, the output fields login name and
/// connection name, one per line, and no lookup of names for addresses.
pub open spec fn lsof_arguments_text(host: IpAddress, port: u16) -> Seq<Seq<char>> {
    seq!["-i"@, target_text(host, port), "-F"@, "Ln"@, "-n"@]
}

/// The longest run of zero segments is as long as any, and longer than any
/// that starts before it.
pub proof fn lemma_longest_zero_run(segments: Seq<u16>, upto: int)
    requires
        1 <= upto <= segments.len(),
    ensures
        0 <= longest_zero_run(segments, upto) < upto,
        forall|i: int|
            0 <= i < upto ==> #[trigger] zero_run(segments, i) <= zero_run(
                segments,
                longest_zero_run(segments, upto),
            ),
        forall|i: int|
            0 <= i < longest_zero_run(segments, upto) ==> #[trigger] zero_run(segments, i)
                < zero_run(segments, longest_zero_run(segments, upto)),
    decreases upto,
{
    if upto > 1 {
        lemma_longest_zero_run(segments, upto - 1);
    }
}

/// An IPv6 address that maps an IPv4 address is named as that IPv4 address is.
pub proof fn lemma_mapped_target(segments: [u16; 8], octets: [u8; 4], port: u16)
    requires
        is_ipv4_mapped(segments@),
        octets@ == embedded_ipv4(segments@),
    ensures
        target_text(IpAddress::V6 { segments }, port) == target_text(
            IpAddress::V4 { octets },
            port,
        ),
{
}

/// Tells whether the segments are those of an IPv4-mapped address.
pub fn maps_ipv4(segments: &[u16; 8]) -> (b: bool)
    ensures
        b == is_ipv4_mapped(segments@),
{
    segments[0] == 0 && segments[1] == 0 && segments[2] == 0 && segments[3] == 0 && segments[4]
        == 0 && segments[5] == 0xffff
}

/// Writes an IPv4 address in dotted decimal at the end of `out`.
fn append_ipv4(out: &mut String, a: u8, b: u8, c: u8, d: u8)
    ensures
        final(out)@ == old(out)@ + ipv4_text(seq![a, b, c, d]),
{
    proof {
        reveal_strlit(".");
    }
    append_decimal(out, a as u16);
    out.append(".");
    append_decimal(out, b as u16);
    out.append(".");
    append_decimal(out, c as u16);
    out.append(".");
    append_decimal(out, d as u16);
    assert(final(out)@ =~= old(out)@ + ipv4_text(seq![a, b, c, d]));
}

/// Counts the zero segments in a row from index `i` on.
fn zero_run_at(segments: &[u16; 8], i: usize) -> (len: usize)
    requires
        i <= 8,
    ensures
        len == zero_run(segments@, i as int),
        i + len <= 8,
{
    let mut j: usize = i;
    while j < 8 && segments[j] == 0
        invariant
            i <= j <= 8,
            zero_run(segments@, i as int) == (j - i) + zero_run(segments@, j as int),
        decreases 8 - j,
    {
        j += 1;
    }
    j - i
}

/// Writes `segments[from..to]` in hexadecimal, colons between, at the end of `out`.
fn append_groups(out: &mut String, segments: &[u16; 8], from: usize, to: usize)
    requires
        from <= to <= 8,
    ensures
        final(out)@ == old(out)@ + groups(segments@.subrange(from as int, to as int)),
{
    let mut i: usize = from;
    while i < to
        invariant
            from <= i <= to <= 8,
            out@ == old(out)@ + groups(segments@.subrange(from as int, i as int)),
        decreases to - i,
    {
        if i > from {
            out.append(":");
        }
        append_hexadecimal(out, segments[i]);
        proof {
            reveal_strlit(":");
            let longer = segments@.subrange(from as int, i + 1);
            assert(longer.drop_last() =~= segments@.subrange(from as int, i as int));
            assert(longer.last() == segments@[i as int]);
            if i == from {
                assert(longer[0] == segments@[i as int]);
                assert(groups(segments@.subrange(from as int, i as int)) =~= Seq::<char>::empty());
            } else {
                assert(groups(longer) == groups(longer.drop_last()) + seq![':'] + hexadecimal(
                    longer.last() as nat,
                ));
            }
            assert(out@ =~= old(out)@ + groups(longer));
        }
        i += 1;
    }
}

/// Writes an IPv6 address in its canonical text at the end of `out`.
fn append_ipv6(out: &mut String, segments: &[u16; 8])
    ensures
        final(out)@ == old(out)@ + ipv6_text(segments@),
{
    let mut start: usize = 0;
    let mut len: usize = zero_run_at(segments, 0);
    let mut i: usize = 1;
    while i < 8
        invariant
            1 <= i <= 8,
            start == longest_zero_run(segments@, i as int),
            len == zero_run(segments@, start as int),
            start + len <= 8,
        decreases 8 - i,
    {
        let here: usize = zero_run_at(segments, i);
        if here > len {
            start = i;
            len = here;
        }
        i += 1;
    }
    if len >= 2 {
        append_groups(out, segments, 0, start);
        out.append("::");
        append_groups(out, segments, start + len, 8);
        proof {
            reveal_strlit("::");
            assert(segments@.subrange(0, start as int) =~= segments@.take(start as int));
            assert(segments@.subrange(start + len, 8) =~= segments@.skip(start + len));
            assert(final(out)@ =~= old(out)@ + ipv6_text(segments@));
        }
    } else {
        append_groups(out, segments, 0, 8);
        proof {
            assert(segments@.subrange(0, 8) =~= segments@);
        }
    }
}

/// Names the remote end `remote_host`, port `remote_port`, as `lsof`'s `-i`
/// option wants it.
pub fn lsof_target(remote_port: u16, remote_host: &IpAddress) -> (target: String)
    ensures
        target@ == target_text(*remote_host, remote_port),
{
    proof {
        reveal_strlit("4TCP@");
        reveal_strlit("6TCP@[");
        reveal_strlit("]:");
        reveal_strlit(":");
    }
    match remote_host {
        IpAddress::V4 { octets } => {
            let mut out = String::from_str("4TCP@");
            append_ipv4(&mut out, octets[0], octets[1], octets[2], octets[3]);
            out.append(":");
            append_decimal(&mut out, remote_port);
            proof {
                assert(seq![octets@[0], octets@[1], octets@[2], octets@[3]] =~= octets@);
                assert(out@ =~= target_text(*remote_host, remote_port));
            }
            out
        },
        IpAddress::V6 { segments } => {
            if maps_ipv4(segments) {
                let mut out = String::from_str("4TCP@");
                append_ipv4(
                    &mut out,
                    (segments[6] / 256) as u8,
                    (segments[6] % 256) as u8,
                    (segments[7] / 256) as u8,
                    (segments[7] % 256) as u8,
                );
                out.append(":");
                append_decimal(&mut out, remote_port);
                proof {
                    assert(out@ =~= target_text(*remote_host, remote_port));
                }
                out
            } else {
                let mut out = String::from_str("6TCP@[");
                append_ipv6(&mut out, segments);
                out.append("]:");
                append_decimal(&mut out, remote_port);
                proof {
                    assert(out@ =~= target_text(*remote_host, remote_port));
                }
                out
            }
        },
    }
}

/// The name of the program that lists the connections.
pub fn lsof_program() -> (name: &'static str)
    ensures
        name@ == "lsof"@,
{
    "lsof"
}

/// The arguments with which `lsof` lists the TCP connections to the remote
/// end `remote_host`, port `remote_port`.
pub fn lsof_arguments(remote_port: u16, remote_host: &IpAddress) -> (arguments: Vec<String>)
    ensures
        texts(arguments@) == lsof_arguments_text(*remote_host, remote_port),
{
    let mut arguments: Vec<String> = Vec::new();
    arguments.push(String::from_str("-i"));
    arguments.push(lsof_target(remote_port, remote_host));
    arguments.push(String::from_str("-F"));
    arguments.push(String::from_str("Ln"));
    arguments.push(String::from_str("-n"));
    assert(texts(arguments@) =~= lsof_arguments_text(*remote_host, remote_port));
    arguments
}

} // verus!

//! The query line: two port numbers with a comma between them.

use crate::error::IdentError;
use crate::number::{
    all_digits, decimal, digits_value, is_digit, lemma_decimal_round_trip, parse_port, port_of,
};
use crate::text::{
    all_whitespace, chars_of, find_char, first_index, is_whitespace, lemma_first_index,
    lemma_first_index_is, lemma_trim_padded, trim, trim_range,
};
use vstd::prelude::*;

verus! {

/// The parts of `s` between the occurrences of `sep`, in order. A text
/// without `sep` is one part; two occurrences next to each other, or one at
/// either end, give an empty part.
pub open spec fn split(s: Seq<char>, sep: char) -> Seq<Seq<char>>
    decreases s.len(),
    via split_decreases
{
    let at = first_index(s, sep);
    if at < s.len() {
        seq![s.take(at)] + split(s.skip(at + 1), sep)
    } else {
        seq![s]
    }
}

#[via_fn]
proof fn split_decreases(s: Seq<char>, sep: char) {
    lemma_first_index(s, sep);
}

/// The ports that a query asks about, the local one first: the query is two
/// fields with a comma between them, and each field, trimmed, is a port
/// number. Any other text asks about none.
pub open spec fn query_ports(query: Seq<char>) -> Option<(u16, u16)> {
    let fields = split(query, ',');
    if fields.len() != 2 {
        None
    } else {
        match (port_of(trim(fields[0])), port_of(trim(fields[1]))) {
            (Some(local), Some(remote)) => Some((local, remote)),
            _ => None,
        }
    }
}

/// Every text has at least one part.
proof fn lemma_split_nonempty(s: Seq<char>, sep: char)
    ensures
        split(s, sep).len() >= 1,
    decreases s.len(),
{
    lemma_first_index(s, sep);
    let at = first_index(s, sep);
    if at < s.len() {
        lemma_split_nonempty(s.skip(at + 1), sep);
    }
}

/// A text with `sep` at `at` and nowhere else has the two parts around it.
proof fn lemma_split_once(s: Seq<char>, sep: char, at: int)
    requires
        0 <= at < s.len(),
        s[at] == sep,
        forall|j: int| 0 <= j < s.len() && j != at ==> s[j] != sep,
    ensures
        split(s, sep) == seq![s.take(at), s.skip(at + 1)],
{
    lemma_first_index_is(s, sep, at);
    let rest = s.skip(at + 1);
    lemma_first_index_is(rest, sep, rest.len() as int);
    assert(split(rest, sep) == seq![rest]);
    assert(split(s, sep) =~= seq![s.take(at), rest]);
}

/// Parses a query: two port numbers with a comma between them, whitespace
/// around each ignored. The first is the port on this host, the second the
/// port on the host that asks.
pub fn parse_query(query: &str) -> (ports: Result<(u16, u16), IdentError>)
    ensures
        match ports {
            Ok(pair) => query_ports(query@) == Some(pair),
            Err(e) => e == IdentError::InvalidPort && query_ports(query@) is None,
        },
{
    let chars = chars_of(query);
    let n = chars.len();
    proof {
        assert(chars@.skip(0) =~= chars@);
    }
    let comma = find_char(&chars, 0, ',');
    if comma == n {
        return Err(IdentError::InvalidPort);
    }
    let second = find_char(&chars, comma + 1, ',');
    proof {
        lemma_first_index(chars@, ',');
        let rest = chars@.skip(comma + 1);
        lemma_first_index(rest, ',');
        if second < n {
            let further = rest.skip(second - comma);
            lemma_split_nonempty(further, ',');
            assert(split(rest, ',') == seq![rest.take(second - comma - 1)] + split(further, ','));
            assert(split(chars@, ',') == seq![chars@.take(comma as int)] + split(rest, ','));
        } else {
            assert(split(rest, ',') == seq![rest]);
            assert(split(chars@, ',') =~= seq![chars@.take(comma as int), rest]);
            assert(chars@.take(comma as int) =~= chars@.subrange(0, comma as int));
            assert(rest =~= chars@.subrange(comma + 1, n as int));
        }
    }
    if second != n {
        return Err(IdentError::InvalidPort);
    }
    let (local_from, local_to) = trim_range(&chars, 0, comma);
    let (remote_from, remote_to) = trim_range(&chars, comma + 1, n);
    match (parse_port(&chars, local_from, local_to), parse_port(&chars, remote_from, remote_to)) {
        (Some(local), Some(remote)) => Ok((local, remote)),
        _ => Err(IdentError::InvalidPort),
    }
}

/// Whether a field, once trimmed, is no port number: it is empty, holds
/// something other than decimal digits, or denotes more than 65535.
pub open spec fn is_bad_field(field: Seq<char>) -> bool {
    let text = trim(field);
    text.len() == 0 || !all_digits(text) || digits_value(text) > 0xffff
}

/// A query that has not exactly two fields, or has a field that is no port
/// number, asks about no ports.
pub proof fn lemma_malformed_query(query: Seq<char>)
    requires
        ({
            let fields = split(query, ',');
            fields.len() != 2 || is_bad_field(fields[0]) || is_bad_field(fields[1])
        }),
    ensures
        query_ports(query) is None,
{
}

/// A decimal number neither starts nor ends with whitespace, and holds no comma.
proof fn lemma_decimal_is_plain(n: nat)
    ensures
        decimal(n).len() > 0,
        !is_whitespace(decimal(n)[0]),
        !is_whitespace(decimal(n).last()),
        forall|i: int| 0 <= i < decimal(n).len() ==> decimal(n)[i] != ',',
{
    lemma_decimal_round_trip(n);
    let d = decimal(n);
    assert(is_digit(d[0]));
    assert(is_digit(d.last()));
    assert forall|i: int| 0 <= i < d.len() implies d[i] != ',' by {
        assert(is_digit(d[i]));
    }
}

/// A well-formed query gives its two ports: whatever whitespace stands
/// around the comma and around each number, the query `<local>,<remote>`
/// asks about `(local, remote)`.
pub proof fn lemma_well_formed_query(
    local: u16,
    remote: u16,
    w1: Seq<char>,
    w2: Seq<char>,
    w3: Seq<char>,
    w4: Seq<char>,
)
    requires
        all_whitespace(w1),
        all_whitespace(w2),
        all_whitespace(w3),
        all_whitespace(w4),
    ensures
        query_ports(
            w1 + decimal(local as nat) + w2 + seq![','] + w3 + decimal(remote as nat) + w4,
        ) == Some((local, remote)),
{
    let first = w1 + decimal(local as nat) + w2;
    let second = w3 + decimal(remote as nat) + w4;
    let query = first + seq![','] + second;
    assert(query =~= w1 + decimal(local as nat) + w2 + seq![','] + w3 + decimal(remote as nat)
        + w4);
    lemma_decimal_is_plain(local as nat);
    lemma_decimal_is_plain(remote as nat);
    lemma_decimal_round_trip(local as nat);
    lemma_decimal_round_trip(remote as nat);
    let at = first.len() as int;
    assert forall|j: int| 0 <= j < query.len() && j != at implies query[j] != ',' by {
        if j < w1.len() {
            assert(is_whitespace(w1[j]));
        } else if j < w1.len() + decimal(local as nat).len() {
        } else if j < at {
            assert(is_whitespace(w2[j - w1.len() - decimal(local as nat).len()]));
        } else if j < at + 1 + w3.len() {
            assert(is_whitespace(w3[j - at - 1]));
        } else if j < at + 1 + w3.len() + decimal(remote as nat).len() {
        } else {
            assert(is_whitespace(w4[j - at - 1 - w3.len() - decimal(remote as nat).len()]));
        }
    }
    lemma_split_once(query, ',', at);
    assert(query.take(at) =~= first);
    assert(query.skip(at + 1) =~= second);
    lemma_trim_padded(w1, decimal(local as nat), w2);
    lemma_trim_padded(w3, decimal(remote as nat), w4);
}

} // verus!

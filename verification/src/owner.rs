//! Finding, in a listing of connections, the user who owns the connection
//! that leaves from a given local port.
//!
//! The listing is a sequence of lines, each tagged by its first byte: `L` is
//! followed by an owner's login name, `n` by a description of a connection
//! of the owner named last. A line with any other tag, whatever it holds, is
//! passed over.

use crate::ascii::{lemma_ascii_first, lemma_contains_ascii, lemma_first_char};
use crate::number::{append_decimal, decimal, is_digit, lemma_decimal_round_trip};
use crate::text::{
    chars_of, contains, contains_bytes, first_index, lemma_first_index, lemma_first_index_is,
    trim, trim_range,
};
use vstd::prelude::*;
use vstd::slice::slice_subrange;
use vstd::string::{StrSliceExecFns, StringExecFns};
use vstd::utf8::{
    decode_utf8, encode_utf8, is_ascii_chars, is_ascii_chars_encode_utf8, valid_utf8,
};

verus! {

/// The byte that ends a line.
pub const LINE_FEED: u8 = 10;

/// The tag of a line that names an owner: the letter `L`.
pub const LOGIN_TAG: u8 = 76;

/// The tag of a line that describes a connection: the letter `n`.
pub const NAME_TAG: u8 = 110;

/// The length of the first line of `bytes`, its line feed included; the whole
/// of `bytes` where it holds no line feed.
pub open spec fn line_len(bytes: Seq<u8>) -> int {
    let feed = first_index(bytes, LINE_FEED);
    if feed < bytes.len() {
        feed + 1
    } else {
        bytes.len() as int
    }
}

/// The lines of `bytes` in order, each with its line feed; the last one may lack it.
pub open spec fn lines(bytes: Seq<u8>) -> Seq<Seq<u8>>
    decreases bytes.len(),
    via lines_decreases
{
    if bytes.len() == 0 {
        Seq::empty()
    } else {
        seq![bytes.take(line_len(bytes))] + lines(bytes.skip(line_len(bytes)))
    }
}

#[via_fn]
proof fn lines_decreases(bytes: Seq<u8>) {
    lemma_first_index(bytes, LINE_FEED);
}

/// What a connection's description holds when it leaves from `port`: a
/// colon, the port in decimal, and the arrow towards the remote end.
pub open spec fn port_marker(port: u16) -> Seq<char> {
    seq![':'] + decimal(port as nat) + seq!['-', '>']
}

/// The marker of `port` as the bytes of a line hold it.
pub open spec fn marker_bytes(port: u16) -> Seq<u8> {
    encode_utf8(port_marker(port))
}

/// Whether a line names an owner.
pub open spec fn is_login_line(line: Seq<u8>) -> bool {
    line.len() > 0 && line[0] == LOGIN_TAG
}

/// The owner that a login line names: what follows the tag, trimmed. A line
/// whose name is not UTF-8 names nobody.
pub open spec fn login_name(line: Seq<u8>) -> Option<Seq<char>> {
    if valid_utf8(line.skip(1)) {
        Some(trim(decode_utf8(line.skip(1))))
    } else {
        None
    }
}

/// Whether a line describes a connection that leaves from `port`.
pub open spec fn is_matching_line(line: Seq<u8>, port: u16) -> bool {
    line.len() > 0 && line[0] == NAME_TAG && contains(line, marker_bytes(port))
}

/// The index of the first line that describes a connection leaving from
/// `port`, or `lines.len()` if none does.
pub open spec fn first_match(lines: Seq<Seq<u8>>, port: u16) -> int {
    first_index(Seq::new(lines.len(), |i: int| is_matching_line(lines[i], port)), true)
}

/// The owner named by the nearest login line before line `k`: nobody where
/// there is no login line before `k`, or where the nearest names nobody.
pub open spec fn owner_before(lines: Seq<Seq<u8>>, k: int) -> Option<Seq<char>>
    decreases k,
{
    if k <= 0 {
        None
    } else if is_login_line(lines[k - 1]) {
        login_name(lines[k - 1])
    } else {
        owner_before(lines, k - 1)
    }
}

/// The owner of the connection that leaves from `port`, according to the
/// listing `output`: the owner named by the nearest login line before the
/// first line that describes such a connection. There is none where no line
/// describes one, where no login line precedes it, or where the nearest
/// login line names nobody.
pub open spec fn find_owner(port: u16, output: Seq<u8>) -> Option<Seq<char>> {
    let all = lines(output);
    let k = first_match(all, port);
    if k < all.len() {
        owner_before(all, k)
    } else {
        None
    }
}

/// The view of an owner's name, if there is one.
pub open spec fn name_view(name: Option<String>) -> Option<Seq<char>> {
    match name {
        Some(s) => Some(s@),
        None => None,
    }
}

/// `owner_before` looks at the lines before `k` only.
proof fn lemma_owner_before_prefix(a: Seq<Seq<u8>>, b: Seq<Seq<u8>>, k: int)
    requires
        0 <= k <= a.len(),
        k <= b.len(),
        forall|j: int| 0 <= j < k ==> a[j] == b[j],
    ensures
        owner_before(a, k) == owner_before(b, k),
    decreases k,
{
    if k > 0 {
        lemma_owner_before_prefix(a, b, k - 1);
    }
}

/// The first match is `k` where no line before `k` matches and `k` is the
/// end of the lines or a line that does.
proof fn lemma_first_match_is(lines: Seq<Seq<u8>>, port: u16, k: int)
    requires
        0 <= k <= lines.len(),
        forall|j: int| 0 <= j < k ==> !is_matching_line(#[trigger] lines[j], port),
        k < lines.len() ==> is_matching_line(lines[k], port),
    ensures
        first_match(lines, port) == k,
{
    let flags = Seq::new(lines.len(), |i: int| is_matching_line(lines[i], port));
    lemma_first_index_is(flags, true, k);
}

/// Whether line `k` is the first that describes a connection leaving from `port`.
pub open spec fn is_first_match(all: Seq<Seq<u8>>, port: u16, k: int) -> bool {
    &&& 0 <= k < all.len()
    &&& is_matching_line(all[k], port)
    &&& forall|i: int| 0 <= i < k ==> !is_matching_line(#[trigger] all[i], port)
}

/// With a login line at `j` and none between `j` and `k`, the owner before
/// `k` is the one that line `j` names.
proof fn lemma_owner_before_nearest(all: Seq<Seq<u8>>, k: int, j: int)
    requires
        0 <= j < k <= all.len(),
        is_login_line(all[j]),
        forall|i: int| j < i < k ==> !is_login_line(#[trigger] all[i]),
    ensures
        owner_before(all, k) == login_name(all[j]),
    decreases k,
{
    if k - 1 > j {
        lemma_owner_before_nearest(all, k - 1, j);
    }
}

/// With no login line before `k`, there is no owner before `k`.
proof fn lemma_owner_before_none(all: Seq<Seq<u8>>, k: int)
    requires
        0 <= k <= all.len(),
        forall|i: int| 0 <= i < k ==> !is_login_line(#[trigger] all[i]),
    ensures
        owner_before(all, k) is None,
    decreases k,
{
    if k > 0 {
        lemma_owner_before_none(all, k - 1);
    }
}

/// The owner found is the one named by the nearest login line before the
/// first line that describes a connection leaving from the port: where line
/// `k` is that first line, line `j` before it is a login line, and no login
/// line stands between them, the owner is whom line `j` names. What the
/// other lines hold, before or behind, makes no difference.
pub proof fn lemma_owner_is_nearest_login(port: u16, output: Seq<u8>, k: int, j: int)
    requires
        is_first_match(lines(output), port, k),
        0 <= j < k,
        is_login_line(lines(output)[j]),
        forall|i: int| j < i < k ==> !is_login_line(#[trigger] lines(output)[i]),
    ensures
        find_owner(port, output) == login_name(lines(output)[j]),
{
    let all = lines(output);
    lemma_first_match_is(all, port, k);
    lemma_owner_before_nearest(all, k, j);
}

/// A connection that is described before any owner is named has no owner,
/// whatever follows: where line `k` is the first that describes a
/// connection leaving from the port and no login line stands before it,
/// no owner is found.
pub proof fn lemma_no_owner_without_login(port: u16, output: Seq<u8>, k: int)
    requires
        is_first_match(lines(output), port, k),
        forall|i: int| 0 <= i < k ==> !is_login_line(#[trigger] lines(output)[i]),
    ensures
        find_owner(port, output) is None,
{
    let all = lines(output);
    lemma_first_match_is(all, port, k);
    lemma_owner_before_none(all, k);
}

/// Where no line describes a connection leaving from the port, no owner is
/// found. An empty listing is such a one.
pub proof fn lemma_no_owner_without_match(port: u16, output: Seq<u8>)
    requires
        forall|i: int|
            0 <= i < lines(output).len() ==> !is_matching_line(#[trigger] lines(output)[i], port),
    ensures
        find_owner(port, output) is None,
{
    let all = lines(output);
    let flags = Seq::new(all.len(), |i: int| is_matching_line(all[i], port));
    lemma_first_index(flags, true);
    let k = first_match(all, port);
    if k < all.len() {
        assert(flags[k]);
    }
}

/// The marker is ASCII and not empty.
proof fn lemma_marker_is_ascii(port: u16)
    ensures
        is_ascii_chars(port_marker(port)),
        port_marker(port).len() > 0,
{
    let marker = port_marker(port);
    let digits = decimal(port as nat);
    lemma_decimal_round_trip(port as nat);
    assert forall|i: int| 0 <= i < marker.len() implies '\0' <= #[trigger] marker[i]
        <= '\u{7f}' by {
        if 1 <= i <= digits.len() {
            assert(marker[i] == digits[i - 1]);
            assert(is_digit(digits[i - 1]));
        }
    }
}

/// The marker's bytes are the codes of its characters, one byte for each.
pub proof fn lemma_marker_bytes(port: u16)
    ensures
        marker_bytes(port).len() == port_marker(port).len(),
        forall|i: int|
            0 <= i < port_marker(port).len() ==> #[trigger] marker_bytes(port)[i] == port_marker(
                port,
            )[i] as u8,
{
    lemma_marker_is_ascii(port);
    is_ascii_chars_encode_utf8(port_marker(port));
}

/// On a line that is UTF-8, the bytes decide as the text does: the line is
/// a login line where its first character is `L`, and then names what
/// follows that character, trimmed; it describes a connection leaving from
/// the port where its first character is `n` and its text holds the marker.
pub proof fn lemma_line_as_text(line: Seq<u8>, port: u16)
    requires
        valid_utf8(line),
    ensures
        is_login_line(line) <==> decode_utf8(line).len() > 0 && decode_utf8(line)[0] == 'L',
        is_login_line(line) ==> login_name(line) == Some(trim(decode_utf8(line).skip(1))),
        is_matching_line(line, port) <==> decode_utf8(line).len() > 0 && decode_utf8(line)[0]
            == 'n' && contains(decode_utf8(line), port_marker(port)),
{
    lemma_first_char(line, 'L');
    lemma_first_char(line, 'n');
    lemma_marker_is_ascii(port);
    lemma_contains_ascii(line, port_marker(port));
    if is_login_line(line) {
        lemma_ascii_first(line);
        assert(decode_utf8(line).skip(1) =~= decode_utf8(line.skip(1)));
    }
}

/// `core::str::from_utf8`: the bytes as text, where they are UTF-8, and
/// nothing where they are not. The text is the bytes decoded.
#[verifier::external_body]
fn text_of(bytes: &[u8]) -> (text: Option<&str>)
    ensures
        text is Some <==> valid_utf8(bytes@),
        text matches Some(s) ==> s@ == decode_utf8(bytes@),
{
    core::str::from_utf8(bytes).ok()
}

/// The end of the line that starts at `from`: just behind its line feed, or
/// the end of `bytes`.
fn line_end(bytes: &[u8], from: usize) -> (end: usize)
    requires
        from < bytes.len(),
    ensures
        end == from + line_len(bytes@.skip(from as int)),
        from < end <= bytes.len(),
{
    let mut i: usize = from;
    while i < bytes.len() && bytes[i] != LINE_FEED
        invariant
            from <= i <= bytes.len(),
            forall|j: int| from <= j < i ==> bytes@[j] != LINE_FEED,
        decreases bytes.len() - i,
    {
        i += 1;
    }
    proof {
        lemma_first_index_is(bytes@.skip(from as int), LINE_FEED, i - from);
    }
    if i < bytes.len() {
        i + 1
    } else {
        i
    }
}

/// The text that marks a connection leaving from `port`.
fn port_marker_text(port: u16) -> (marker: String)
    ensures
        marker@ == port_marker(port),
{
    let mut marker = String::from_str(":");
    append_decimal(&mut marker, port);
    marker.append("->");
    proof {
        reveal_strlit(":");
        reveal_strlit("->");
        assert(marker@ =~= port_marker(port));
    }
    marker
}

/// Reads the owner's name off a login line.
fn read_login_name(line: &[u8]) -> (name: Option<String>)
    requires
        line@.len() > 0,
    ensures
        name_view(name) == login_name(line@),
{
    let rest = slice_subrange(line, 1, line.len());
    proof {
        assert(rest@ =~= line@.skip(1));
    }
    match text_of(rest) {
        Some(text) => {
            let chars = chars_of(text);
            let (from, to) = trim_range(&chars, 0, chars.len());
            proof {
                assert(chars@.subrange(0, chars.len() as int) =~= chars@);
            }
            Some(text.substring_char(from, to).to_owned())
        },
        None => None,
    }
}

/// Searches the listing `lsof_output` for a connection that leaves from
/// `local_port` and returns its owner's name.
///
/// The lines are read in order. A login line sets the owner of the
/// connections that follow; one whose name is not UTF-8 sets nobody. The
/// first connection line that holds the port's marker ends the search with
/// the owner set last, or with nothing where nobody was set. Every other
/// line is passed over.
pub fn search_for_port(local_port: u16, lsof_output: Vec<u8>) -> (owner: Option<String>)
    ensures
        name_view(owner) == find_owner(local_port, lsof_output@),
{
    let bytes = lsof_output.as_slice();
    let marker_text = port_marker_text(local_port);
    let marker = marker_text.as_str().as_bytes();
    let mut current_user: Option<String> = None;
    let mut pos: usize = 0;
    let ghost all = lines(bytes@);
    let ghost mut seen: Seq<Seq<u8>> = Seq::empty();
    proof {
        assert(bytes@.skip(0) =~= bytes@);
    }
    while pos < bytes.len()
        invariant
            pos <= bytes.len(),
            bytes@ == lsof_output@,
            marker@ == marker_bytes(local_port),
            all == lines(bytes@),
            all == seen + lines(bytes@.skip(pos as int)),
            forall|j: int| 0 <= j < seen.len() ==> !is_matching_line(#[trigger] seen[j], local_port),
            name_view(current_user) == owner_before(seen, seen.len() as int),
        decreases bytes.len() - pos,
    {
        let end = line_end(bytes, pos);
        let line = slice_subrange(bytes, pos, end);
        let ghost rest = bytes@.skip(pos as int);
        proof {
            assert(line@ =~= rest.take(line_len(rest)));
            assert(rest.skip(line_len(rest)) =~= bytes@.skip(end as int));
            assert(all =~= seen.push(line@) + lines(bytes@.skip(end as int)));
            assert(all[seen.len() as int] == line@);
            assert forall|j: int| 0 <= j < seen.len() implies all[j] == seen[j] by {}
        }
        let tag: u8 = line[0];
        if tag == LOGIN_TAG {
            current_user = read_login_name(line);
        } else if tag == NAME_TAG && contains_bytes(line, marker) {
            proof {
                lemma_first_match_is(all, local_port, seen.len() as int);
                lemma_owner_before_prefix(all, seen, seen.len() as int);
            }
            return current_user;
        }
        proof {
            let longer = seen.push(line@);
            lemma_owner_before_prefix(longer, seen, seen.len() as int);
            seen = longer;
        }
        pos = end;
    }
    proof {
        assert(bytes@.skip(pos as int).len() == 0);
        assert(all =~= seen);
        lemma_first_match_is(all, local_port, all.len() as int);
    }
    None
}

} // verus!

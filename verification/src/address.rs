//! Target addresses: IPv4 dotted quads and IPv6 literals.

use vstd::prelude::*;
use vstd::slice::slice_subrange;
use crate::text::{bounded_number, chars_of, read_number, spans_of_fields, split, split_fields};

verus! {

/// The address of the host to scan.
#[derive(Clone, Copy, Debug, PartialEq, Eq)]
pub enum IpAddress {
    /// An IPv4 address, as its four octets.
    V4([u8; 4]),
    /// An IPv6 address, as its eight groups of sixteen bits.
    V6([u16; 8]),
}

/// What an [`IpAddress`] holds, as sequences.
pub ghost enum AddressValue {
    /// Four octets.
    V4(Seq<u8>),
    /// Eight groups.
    V6(Seq<u16>),
}

impl View for IpAddress {
    type V = AddressValue;

    open spec fn view(&self) -> AddressValue {
        match *self {
            IpAddress::V4(octets) => AddressValue::V4(octets@),
            IpAddress::V6(groups) => AddressValue::V6(groups@),
        }
    }
}

/// The octet that `s` writes: one to three decimal digits with a value of at
/// most 255 and, unless the octet is a lone `0`, no zero in front.
pub open spec fn octet_of_text(s: Seq<char>) -> Option<u8> {
    if s.len() <= 3 && (s.len() > 1 ==> s[0] != '0') {
        match bounded_number(s, 10, 255) {
            Some(v) => Some(v as u8),
            None => None,
        }
    } else {
        None
    }
}

/// The four octets that `s` writes as a dotted quad: exactly four octets
/// with a `.` between each two.
pub open spec fn dotted_quad(s: Seq<char>) -> Option<Seq<u8>> {
    let fields = split(s, '.');
    if fields.len() == 4 && forall|i: int|
        0 <= i < 4 ==> octet_of_text(#[trigger] fields[i]) is Some {
        Some(Seq::new(4, |i: int| octet_of_text(fields[i]).unwrap()))
    } else {
        None
    }
}

/// The group that `s` writes: one to four hexadecimal digits.
pub open spec fn group_of_text(s: Seq<char>) -> Option<u16> {
    if s.len() <= 4 {
        match bounded_number(s, 16, 0xFFFF) {
            Some(v) => Some(v as u16),
            None => None,
        }
    } else {
        None
    }
}

/// The sixteen bits made of `high` above `low`.
pub open spec fn group_of_octets(high: u8, low: u8) -> u16 {
    (high * 256 + low) as u16
}

/// The groups that `s` writes as a list of groups with a `:` between each
/// two. Where `quad_allowed` holds, the last item may be a dotted quad
/// instead, which stands for two groups.
pub open spec fn groups_of_text(s: Seq<char>, quad_allowed: bool) -> Option<Seq<u16>> {
    let fields = split(s, ':');
    let front = fields.drop_last();
    if forall|i: int| 0 <= i < front.len() ==> group_of_text(#[trigger] front[i]) is Some {
        let groups = Seq::new(front.len(), |i: int| group_of_text(front[i]).unwrap());
        match group_of_text(fields.last()) {
            Some(group) => Some(groups.push(group)),
            None => match dotted_quad(fields.last()) {
                Some(octets) => if quad_allowed {
                    Some(
                        groups.push(group_of_octets(octets[0], octets[1])).push(
                            group_of_octets(octets[2], octets[3]),
                        ),
                    )
                } else {
                    None
                },
                None => None,
            },
        }
    } else {
        None
    }
}

/// Whether `s` has `::` at index `k`.
pub open spec fn double_colon_at(s: Seq<char>, k: int) -> bool {
    0 <= k && k + 1 < s.len() && s[k] == ':' && s[k + 1] == ':'
}

/// Where `::` first occurs in `s`, if it occurs.
pub open spec fn first_double_colon(s: Seq<char>) -> Option<int> {
    if exists|k: int| double_colon_at(s, k) {
        Some(
            choose|k: int|
                double_colon_at(s, k) && forall|j: int| 0 <= j < k ==> !double_colon_at(s, j),
        )
    } else {
        None
    }
}

/// The eight groups made of `head`, then as many zero groups as are
/// missing, then `tail`.
pub open spec fn zero_filled(head: Seq<u16>, tail: Seq<u16>) -> Seq<u16> {
    head + Seq::new((8 - head.len() - tail.len()) as nat, |i: int| 0u16) + tail
}

/// The eight groups that `s` writes in full: a list of exactly eight
/// groups, the last two of which may be written as a dotted quad.
pub open spec fn full_ipv6(s: Seq<char>) -> Option<Seq<u16>> {
    match groups_of_text(s, true) {
        Some(groups) => if groups.len() == 8 {
            Some(groups)
        } else {
            None
        },
        None => None,
    }
}

/// The eight groups that `s` writes around the `::` at index `k`: the lists
/// before and after it, either of which may be empty, hold at most seven
/// groups together, only the list after it may end in a dotted quad, and
/// `::` stands for the zero groups that fill the address up to eight.
pub open spec fn compressed_ipv6(s: Seq<char>, k: int) -> Option<Seq<u16>> {
    let head = if k == 0 {
        Some(Seq::<u16>::empty())
    } else {
        groups_of_text(s.take(k), false)
    };
    let tail = if k + 2 == s.len() {
        Some(Seq::<u16>::empty())
    } else {
        groups_of_text(s.skip(k + 2), true)
    };
    match (head, tail) {
        (Some(head), Some(tail)) => if head.len() + tail.len() <= 7 {
            Some(zero_filled(head, tail))
        } else {
            None
        },
        _ => None,
    }
}

/// The eight groups that `s` writes as an IPv6 literal: in full where `s`
/// holds no `::`, and around the first `::` where it does.
pub open spec fn ipv6_of_text(s: Seq<char>) -> Option<Seq<u16>> {
    match first_double_colon(s) {
        None => full_ipv6(s),
        Some(k) => compressed_ipv6(s, k),
    }
}

/// The address that `s` writes: a dotted quad, or else an IPv6 literal.
pub open spec fn address_of_text(s: Seq<char>) -> Option<AddressValue> {
    match dotted_quad(s) {
        Some(octets) => Some(AddressValue::V4(octets)),
        None => match ipv6_of_text(s) {
            Some(groups) => Some(AddressValue::V6(groups)),
            None => None,
        },
    }
}

/// Reads one octet of a dotted quad.
pub fn parse_octet(text: &[char]) -> (octet: Option<u8>)
    ensures
        octet == octet_of_text(text@),
{
    let n: usize = text.len();
    if n > 3 || (n > 1 && text[0] == '0') {
        return None;
    }
    match read_number(text, 10, 255) {
        Some(v) => Some(v as u8),
        None => None,
    }
}

/// Reads a dotted quad.
pub fn parse_dotted_quad(text: &[char]) -> (octets: Option<[u8; 4]>)
    ensures
        match octets {
            Some(o) => dotted_quad(text@) == Some(o@),
            None => dotted_quad(text@) is None,
        },
{
    let spans = split_fields(text, '.');
    if spans.len() != 4 {
        return None;
    }
    let ghost fields = split(text@, '.');
    let mut octets: [u8; 4] = [0u8; 4];
    let mut i: usize = 0;
    while i < 4
        invariant
            i <= 4,
            spans@.len() == 4,
            fields == split(text@, '.'),
            spans_of_fields(spans@, text@, '.'),
            forall|k: int| 0 <= k < i ==> octet_of_text(#[trigger] fields[k]) == Some(octets@[k]),
        decreases 4 - i,
    {
        let span = spans[i];
        assert(span == spans@[i as int]);
        match parse_octet(slice_subrange(text, span.0, span.1)) {
            Some(octet) => {
                octets[i] = octet;
            },
            None => {
                assert(octet_of_text(fields[i as int]) is None);
                return None;
            },
        }
        i += 1;
    }
    assert(octets@ =~= Seq::new(4, |i: int| octet_of_text(fields[i]).unwrap()));
    Some(octets)
}

/// Reads one group of an IPv6 literal.
pub fn parse_group(text: &[char]) -> (group: Option<u16>)
    ensures
        group == group_of_text(text@),
{
    if text.len() > 4 {
        return None;
    }
    match read_number(text, 16, 0xFFFF) {
        Some(v) => Some(v as u16),
        None => None,
    }
}

/// Puts two octets together, `high` above `low`.
pub fn join_octets(high: u8, low: u8) -> (group: u16)
    ensures
        group == group_of_octets(high, low),
{
    high as u16 * 256 + low as u16
}

/// Reads a list of groups with `:` between them; with `quad_allowed`, the
/// last item may be a dotted quad.
pub fn parse_groups(text: &[char], quad_allowed: bool) -> (groups: Option<Vec<u16>>)
    ensures
        match groups {
            Some(list) => groups_of_text(text@, quad_allowed) == Some(list@),
            None => groups_of_text(text@, quad_allowed) is None,
        },
{
    let spans = split_fields(text, ':');
    let ghost fields = split(text@, ':');
    let ghost front = fields.drop_last();
    let last_index: usize = spans.len() - 1;
    let mut list: Vec<u16> = Vec::new();
    let mut i: usize = 0;
    while i < last_index
        invariant
            i <= last_index,
            last_index + 1 == spans@.len(),
            fields == split(text@, ':'),
            front == fields.drop_last(),
            spans_of_fields(spans@, text@, ':'),
            list@.len() == i,
            forall|k: int| 0 <= k < i ==> group_of_text(#[trigger] front[k]) == Some(list@[k]),
        decreases last_index - i,
    {
        let span = spans[i];
        assert(span == spans@[i as int]);
        assert(front[i as int] == fields[i as int]);
        match parse_group(slice_subrange(text, span.0, span.1)) {
            Some(group) => {
                list.push(group);
            },
            None => {
                assert(group_of_text(front[i as int]) is None);
                return None;
            },
        }
        i += 1;
    }
    assert(list@ =~= Seq::new(front.len(), |i: int| group_of_text(front[i]).unwrap()));
    let span = spans[last_index];
    assert(span == spans@[last_index as int]);
    let last = slice_subrange(text, span.0, span.1);
    assert(last@ == fields.last());
    match parse_group(last) {
        Some(group) => {
            list.push(group);
            Some(list)
        },
        None => {
            if !quad_allowed {
                return None;
            }
            match parse_dotted_quad(last) {
                Some(octets) => {
                    list.push(join_octets(octets[0], octets[1]));
                    list.push(join_octets(octets[2], octets[3]));
                    Some(list)
                },
                None => None,
            }
        },
    }
}

/// Finds the first `::` in `text`.
pub fn find_double_colon(text: &[char]) -> (at: Option<usize>)
    ensures
        match at {
            Some(k) => first_double_colon(text@) == Some(k as int) && k + 2 <= text@.len(),
            None => first_double_colon(text@) is None,
        },
{
    let n: usize = text.len();
    if n < 2 {
        return None;
    }
    let mut i: usize = 0;
    while i < n - 1
        invariant
            n == text@.len(),
            n >= 2,
            i <= n - 1,
            forall|j: int| 0 <= j < i ==> !double_colon_at(text@, j),
        decreases n - i,
    {
        if text[i] == ':' && text[i + 1] == ':' {
            assert(double_colon_at(text@, i as int));
            return Some(i);
        }
        i += 1;
    }
    None
}

/// Lays `head` and `tail` out at the two ends of an address and fills the
/// groups between them with zeros.
pub(crate) fn fill_groups(head: &[u16], tail: &[u16]) -> (groups: [u16; 8])
    requires
        head@.len() + tail@.len() <= 8,
    ensures
        groups@ == zero_filled(head@, tail@),
{
    let ghost filled = zero_filled(head@, tail@);
    let mut groups: [u16; 8] = [0u16; 8];
    let mut i: usize = 0;
    while i < head.len()
        invariant
            i <= head@.len(),
            head@.len() + tail@.len() <= 8,
            filled == zero_filled(head@, tail@),
            forall|j: int| 0 <= j < i ==> groups@[j] == filled[j],
            forall|j: int| i <= j < 8 ==> groups@[j] == 0,
        decreases head@.len() - i,
    {
        groups[i] = head[i];
        i += 1;
    }
    let offset: usize = 8 - tail.len();
    let mut i: usize = 0;
    while i < tail.len()
        invariant
            i <= tail@.len(),
            offset == 8 - tail@.len(),
            head@.len() + tail@.len() <= 8,
            filled == zero_filled(head@, tail@),
            forall|j: int| 0 <= j < offset + i ==> groups@[j] == filled[j],
        decreases tail@.len() - i,
    {
        groups[offset + i] = tail[i];
        i += 1;
    }
    assert(groups@ =~= filled);
    groups
}

/// Reads an IPv6 literal that is written in full.
pub fn parse_full_ipv6(text: &[char]) -> (groups: Option<[u16; 8]>)
    ensures
        match groups {
            Some(g) => full_ipv6(text@) == Some(g@),
            None => full_ipv6(text@) is None,
        },
{
    match parse_groups(text, true) {
        Some(list) => {
            if list.len() != 8 {
                return None;
            }
            let none: Vec<u16> = Vec::new();
            let groups = fill_groups(list.as_slice(), none.as_slice());
            assert(groups@ =~= list@);
            Some(groups)
        },
        None => None,
    }
}

/// Reads an IPv6 literal around the `::` at index `k`.
pub(crate) fn parse_compressed_ipv6(text: &[char], k: usize) -> (groups: Option<[u16; 8]>)
    requires
        k + 2 <= text@.len(),
    ensures
        match groups {
            Some(g) => compressed_ipv6(text@, k as int) == Some(g@),
            None => compressed_ipv6(text@, k as int) is None,
        },
{
    let n: usize = text.len();
    let head = if k == 0 {
        Some(Vec::new())
    } else {
        parse_groups(slice_subrange(text, 0, k), false)
    };
    let tail = if k + 2 == n {
        Some(Vec::new())
    } else {
        parse_groups(slice_subrange(text, k + 2, n), true)
    };
    match (head, tail) {
        (Some(head), Some(tail)) => {
            if head.len() > 7 || tail.len() > 7 - head.len() {
                return None;
            }
            Some(fill_groups(head.as_slice(), tail.as_slice()))
        },
        _ => None,
    }
}

/// Reads an IPv6 literal.
pub fn parse_ipv6(text: &[char]) -> (groups: Option<[u16; 8]>)
    ensures
        match groups {
            Some(g) => ipv6_of_text(text@) == Some(g@),
            None => ipv6_of_text(text@) is None,
        },
{
    match find_double_colon(text) {
        None => parse_full_ipv6(text),
        Some(k) => parse_compressed_ipv6(text, k),
    }
}

/// Reads a target address: an IPv4 dotted quad or an IPv6 literal.
pub fn parse_ip_address(text: &str) -> (address: Option<IpAddress>)
    ensures
        match address {
            Some(a) => address_of_text(text@) == Some(a@),
            None => address_of_text(text@) is None,
        },
{
    let chars = chars_of(text);
    match parse_dotted_quad(chars.as_slice()) {
        Some(octets) => Some(IpAddress::V4(octets)),
        None => match parse_ipv6(chars.as_slice()) {
            Some(groups) => Some(IpAddress::V6(groups)),
            None => None,
        },
    }
}

} // verus!

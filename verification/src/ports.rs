//! Port specifications: a single port `N`, or an inclusive range `A-B`.

use vstd::prelude::*;
use crate::error::ScanError;
use crate::text::{
    bounded_number, chars_of, decimal_text, is_digit, lemma_decimal_text_value,
    lemma_split_at_separator, lemma_split_without_separator, push_decimal, read_number, split,
    split_fields,
};

verus! {

/// The lowest port that can be scanned.
pub const MIN_PORT: u16 = 1;

/// The highest port that can be scanned.
pub const MAX_PORT: u16 = 65535;

/// The port that `s` writes: decimal digits, with an optional `+` in front,
/// whose value lies between 1 and 65535. Leading zeros are allowed.
pub open spec fn port_of_text(s: Seq<char>) -> Option<u16> {
    let digits = if s.len() > 0 && s[0] == '+' {
        s.skip(1)
    } else {
        s
    };
    match bounded_number(digits, 10, MAX_PORT as nat) {
        Some(v) => if v >= MIN_PORT {
            Some(v as u16)
        } else {
            None
        },
        None => None,
    }
}

/// The ports from `first` to `last`, both included, in ascending order.
pub open spec fn port_span(first: u16, last: u16) -> Seq<u16> {
    Seq::new((last - first + 1) as nat, |i: int| (first + i) as u16)
}

/// What a port specification means.
///
/// Text without `-` is a single port. Text with `-` must consist of exactly
/// two ports around one `-`, the first no greater than the second, and means
/// every port from the first to the second.
pub open spec fn ports_of_text(s: Seq<char>) -> Result<Seq<u16>, ScanError> {
    let fields = split(s, '-');
    if fields.len() == 1 {
        match port_of_text(s) {
            Some(port) => Ok(seq![port]),
            None => Err(ScanError::InvalidPort),
        }
    } else if fields.len() == 2 {
        match (port_of_text(fields[0]), port_of_text(fields[1])) {
            (Some(first), Some(last)) => if first <= last {
                Ok(port_span(first, last))
            } else {
                Err(ScanError::InvalidRange)
            },
            _ => Err(ScanError::InvalidRange),
        }
    } else {
        Err(ScanError::InvalidRange)
    }
}

/// Whether `ports` can be scanned: at least one port, none of them zero,
/// none of them twice.
pub open spec fn valid_ports(ports: Seq<u16>) -> bool {
    &&& ports.len() > 0
    &&& forall|i: int| 0 <= i < ports.len() ==> #[trigger] ports[i] >= MIN_PORT
    &&& ports.no_duplicates()
}

/// Text that writes a port holds no `-`.
pub proof fn lemma_port_text_has_no_dash(s: Seq<char>)
    requires
        port_of_text(s) is Some,
    ensures
        !s.contains('-'),
{
    assert forall|i: int| 0 <= i < s.len() implies s[i] != '-' by {
        if s[0] == '+' {
            if i > 0 {
                assert(is_digit(s.skip(1)[i - 1], 10));
            }
        } else {
            assert(is_digit(s[i], 10));
        }
    }
}

/// Text that writes a port, taken as a port specification, means that one
/// port and no other.
pub proof fn lemma_single_port(s: Seq<char>, port: u16)
    requires
        port_of_text(s) == Some(port),
    ensures
        ports_of_text(s) == Ok::<Seq<u16>, ScanError>(seq![port]),
{
    lemma_port_text_has_no_dash(s);
    lemma_split_without_separator(s, '-');
}

/// Two texts that write the ports `first` and `last`, with `first` no greater
/// than `last`, joined by `-`, mean the ports `first`, `first + 1`, and so on
/// up to `last`: `last - first + 1` ports in ascending order.
pub proof fn lemma_port_range(lo: Seq<char>, hi: Seq<char>, first: u16, last: u16)
    requires
        port_of_text(lo) == Some(first),
        port_of_text(hi) == Some(last),
        first <= last,
    ensures
        ports_of_text(lo + seq!['-'] + hi) == Ok::<Seq<u16>, ScanError>(port_span(first, last)),
        port_span(first, last).len() == last - first + 1,
        forall|i: int| 0 <= i <= last - first ==> #[trigger] port_span(first, last)[i] == first + i,
{
    lemma_port_text_has_no_dash(lo);
    lemma_port_text_has_no_dash(hi);
    lemma_split_without_separator(lo, '-');
    lemma_split_without_separator(hi, '-');
    lemma_split_at_separator(lo, hi, '-');
    assert(split(lo + seq!['-'] + hi, '-') =~= seq![lo, hi]);
}

/// A range whose start lies beyond its end is refused as a range.
pub proof fn lemma_reversed_range(lo: Seq<char>, hi: Seq<char>, first: u16, last: u16)
    requires
        port_of_text(lo) == Some(first),
        port_of_text(hi) == Some(last),
        first > last,
    ensures
        ports_of_text(lo + seq!['-'] + hi) == Err::<Seq<u16>, ScanError>(ScanError::InvalidRange),
{
    lemma_port_text_has_no_dash(lo);
    lemma_port_text_has_no_dash(hi);
    lemma_split_without_separator(lo, '-');
    lemma_split_without_separator(hi, '-');
    lemma_split_at_separator(lo, hi, '-');
    assert(split(lo + seq!['-'] + hi, '-') =~= seq![lo, hi]);
}

/// The decimal notation of a port writes that port.
pub proof fn lemma_decimal_text_is_port(port: u16)
    requires
        port >= MIN_PORT,
    ensures
        port_of_text(decimal_text(port as nat)) == Some(port),
{
    lemma_decimal_text_value(port as nat);
    assert(is_digit(decimal_text(port as nat)[0], 10));
}

/// Reading back a port written in decimal gives exactly that port.
pub proof fn lemma_written_port_reads_back(port: u16)
    requires
        port >= MIN_PORT,
    ensures
        ports_of_text(decimal_text(port as nat)) == Ok::<Seq<u16>, ScanError>(seq![port]),
{
    lemma_decimal_text_is_port(port);
    lemma_single_port(decimal_text(port as nat), port);
}

/// Reading back a range written as two decimal ports around `-` gives every
/// port of the range, in ascending order.
pub proof fn lemma_written_range_reads_back(first: u16, last: u16)
    requires
        MIN_PORT <= first <= last,
    ensures
        ports_of_text(decimal_text(first as nat) + seq!['-'] + decimal_text(last as nat)) == Ok::<
            Seq<u16>,
            ScanError,
        >(port_span(first, last)),
        port_span(first, last).len() == last - first + 1,
        forall|i: int| 0 <= i <= last - first ==> #[trigger] port_span(first, last)[i] == first + i,
{
    lemma_decimal_text_is_port(first);
    lemma_decimal_text_is_port(last);
    lemma_port_range(decimal_text(first as nat), decimal_text(last as nat), first, last);
}

/// Whatever a port specification means can be scanned.
pub proof fn lemma_parsed_ports_are_valid(s: Seq<char>)
    ensures
        ports_of_text(s) matches Ok(ports) ==> valid_ports(ports),
{
    if let Ok(ports) = ports_of_text(s) {
        let fields = split(s, '-');
        if fields.len() == 2 {
            let first = port_of_text(fields[0]).unwrap();
            let last = port_of_text(fields[1]).unwrap();
            assert(ports == port_span(first, last));
        }
    }
}

/// Reads one port.
pub fn parse_port(text: &[char]) -> (port: Option<u16>)
    ensures
        port == port_of_text(text@),
{
    let n: usize = text.len();
    let digits = if n > 0 && text[0] == '+' {
        vstd::slice::slice_subrange(text, 1, n)
    } else {
        text
    };
    match read_number(digits, 10, MAX_PORT as u32) {
        Some(v) => if v >= MIN_PORT as u32 {
            Some(v as u16)
        } else {
            None
        },
        None => None,
    }
}

/// Reads a port specification: a single port, or two ports joined by `-`.
pub fn parse_port_range(range: &str) -> (ports: Result<Vec<u16>, ScanError>)
    ensures
        match ports {
            Ok(list) => ports_of_text(range@) == Ok::<Seq<u16>, ScanError>(list@) && valid_ports(
                list@,
            ),
            Err(e) => ports_of_text(range@) == Err::<Seq<u16>, ScanError>(e),
        },
{
    proof {
        lemma_parsed_ports_are_valid(range@);
    }
    let chars = chars_of(range);
    let text = chars.as_slice();
    let spans = split_fields(text, '-');
    if spans.len() == 1 {
        match parse_port(text) {
            Some(port) => {
                let mut list: Vec<u16> = Vec::new();
                list.push(port);
                assert(list@ =~= seq![port]);
                Ok(list)
            },
            None => Err(ScanError::InvalidPort),
        }
    } else if spans.len() == 2 {
        let first = parse_port(vstd::slice::slice_subrange(text, spans[0].0, spans[0].1));
        let last = parse_port(vstd::slice::slice_subrange(text, spans[1].0, spans[1].1));
        match (first, last) {
            (Some(first), Some(last)) => {
                if first <= last {
                    Ok(ports_between(first, last))
                } else {
                    Err(ScanError::InvalidRange)
                }
            },
            _ => Err(ScanError::InvalidRange),
        }
    } else {
        Err(ScanError::InvalidRange)
    }
}

/// Lists the ports from `first` to `last`, both included.
pub(crate) fn ports_between(first: u16, last: u16) -> (list: Vec<u16>)
    requires
        first <= last,
    ensures
        list@ == port_span(first, last),
{
    let mut list: Vec<u16> = Vec::new();
    let mut port: u16 = first;
    while port < last
        invariant
            first <= port <= last,
            list@ == Seq::new((port - first) as nat, |i: int| (first + i) as u16),
        decreases last - port,
    {
        list.push(port);
        port += 1;
        assert(list@ =~= Seq::new((port - first) as nat, |i: int| (first + i) as u16));
    }
    list.push(last);
    assert(list@ =~= port_span(first, last));
    list
}

/// Writes a port in decimal.
pub fn format_port(port: u16) -> (text: String)
    ensures
        text@ == decimal_text(port as nat),
{
    let mut text = String::new();
    push_decimal(&mut text, port as u32);
    assert(text@ =~= decimal_text(port as nat));
    text
}

} // verus!

//! Reading and writing numbers and separated fields in text.

use vstd::prelude::*;

verus! {

/// The value of a character read as a digit: `0` to `9` stand for themselves,
/// `a` to `f` and `A` to `F` for ten to fifteen.
pub open spec fn digit_of(c: char) -> Option<nat> {
    if '0' <= c <= '9' {
        Some((c as nat - '0' as nat) as nat)
    } else if 'a' <= c <= 'f' {
        Some((c as nat - 'a' as nat + 10) as nat)
    } else if 'A' <= c <= 'F' {
        Some((c as nat - 'A' as nat + 10) as nat)
    } else {
        None
    }
}

/// Whether `c` is a digit of the given radix.
pub open spec fn is_digit(c: char, radix: nat) -> bool {
    digit_of(c) matches Some(d) && d < radix
}

/// Whether every character of `s` is a digit of the given radix.
pub open spec fn all_digits(s: Seq<char>, radix: nat) -> bool {
    forall|i: int| 0 <= i < s.len() ==> is_digit(#[trigger] s[i], radix)
}

/// The number that the digits of `s` denote in the given radix, most
/// significant digit first. A character that is no digit counts as zero.
pub open spec fn number_value(s: Seq<char>, radix: nat) -> nat
    decreases s.len(),
{
    if s.len() == 0 {
        0
    } else {
        let low = match digit_of(s.last()) {
            Some(d) => d,
            None => 0,
        };
        number_value(s.drop_last(), radix) * radix + low
    }
}

/// The number written by `s`, provided that `s` is a non-empty run of digits
/// of the given radix and the number does not exceed `limit`.
pub open spec fn bounded_number(s: Seq<char>, radix: nat, limit: nat) -> Option<nat> {
    if s.len() > 0 && all_digits(s, radix) && number_value(s, radix) <= limit {
        Some(number_value(s, radix))
    } else {
        None
    }
}

/// The fields of `s` between occurrences of `sep`. There is always at least
/// one field; `n` separators give `n + 1` fields, some of which may be empty.
pub open spec fn split(s: Seq<char>, sep: char) -> Seq<Seq<char>>
    decreases s.len(),
{
    if s.len() == 0 {
        seq![Seq::<char>::empty()]
    } else {
        let before = split(s.drop_last(), sep);
        if s.last() == sep {
            before.push(Seq::<char>::empty())
        } else {
            before.drop_last().push(before.last().push(s.last()))
        }
    }
}

/// The fields put together again, with `sep` between each two.
pub open spec fn join(fields: Seq<Seq<char>>, sep: char) -> Seq<char>
    decreases fields.len(),
{
    if fields.len() == 0 {
        Seq::empty()
    } else if fields.len() == 1 {
        fields[0]
    } else {
        join(fields.drop_last(), sep) + seq![sep] + fields.last()
    }
}

/// The character that writes the decimal digit `d`.
pub open spec fn digit_char(d: nat) -> char {
    ('0' as nat + d) as char
}

/// The decimal notation of `n`, without sign or leading zeros.
pub open spec fn decimal_text(n: nat) -> Seq<char>
    decreases n,
{
    if n < 10 {
        seq![digit_char(n)]
    } else {
        decimal_text(n / 10).push(digit_char(n % 10))
    }
}

/// A number is at least the number written by any prefix of its digits.
pub proof fn lemma_number_value_prefix(s: Seq<char>, radix: nat, k: int)
    requires
        0 <= k <= s.len(),
        radix >= 1,
    ensures
        number_value(s.take(k), radix) <= number_value(s, radix),
    decreases s.len(),
{
    if k == s.len() {
        assert(s.take(k) =~= s);
    } else {
        let front = s.drop_last();
        lemma_number_value_prefix(front, radix, k);
        assert(front.take(k) =~= s.take(k));
        assert(number_value(front, radix) * radix >= number_value(front, radix))
            by (nonlinear_arith)
            requires
                radix >= 1,
        ;
    }
}

/// Splitting never yields an empty list of fields.
pub proof fn lemma_split_nonempty(s: Seq<char>, sep: char)
    ensures
        split(s, sep).len() >= 1,
    decreases s.len(),
{
    if s.len() > 0 {
        lemma_split_nonempty(s.drop_last(), sep);
    }
}

/// No field holds the separator.
pub proof fn lemma_fields_hold_no_separator(s: Seq<char>, sep: char)
    ensures
        forall|k: int| 0 <= k < split(s, sep).len() ==> !(#[trigger] split(s, sep)[k]).contains(sep),
    decreases s.len(),
{
    let fields = split(s, sep);
    if s.len() == 0 {
        assert(fields[0] =~= Seq::<char>::empty());
    } else {
        let before = split(s.drop_last(), sep);
        lemma_fields_hold_no_separator(s.drop_last(), sep);
        lemma_split_nonempty(s.drop_last(), sep);
        assert forall|k: int| 0 <= k < fields.len() implies !(#[trigger] fields[k]).contains(
            sep,
        ) by {
            if k < before.len() - 1 {
                assert(fields[k] == before[k]);
            } else if s.last() != sep {
                let grown = before.last().push(s.last());
                assert(fields[k] == grown);
                assert(!before[before.len() - 1].contains(sep));
                assert forall|i: int| 0 <= i < grown.len() implies grown[i] != sep by {
                    if i < before.last().len() {
                        assert(before.last().contains(before.last()[i]));
                    }
                }
            } else if k == before.len() - 1 {
                assert(fields[k] == before[k]);
            }
        }
    }
}

/// The fields, put together again with the separator between them, are the
/// text that was split.
pub proof fn lemma_join_of_split(s: Seq<char>, sep: char)
    ensures
        join(split(s, sep), sep) == s,
    decreases s.len(),
{
    let fields = split(s, sep);
    if s.len() == 0 {
        assert(s =~= Seq::<char>::empty());
    } else {
        let front = s.drop_last();
        let before = split(front, sep);
        lemma_join_of_split(front, sep);
        lemma_split_nonempty(front, sep);
        assert(front.push(s.last()) =~= s);
        if s.last() == sep {
            assert(fields.drop_last() =~= before);
            assert(join(fields, sep) =~= s);
        } else if before.len() == 1 {
            assert(join(fields, sep) =~= s);
        } else {
            assert(fields.drop_last() =~= before.drop_last());
            assert(join(fields, sep) =~= s);
        }
    }
}

/// Text without the separator is a single field.
pub proof fn lemma_split_without_separator(s: Seq<char>, sep: char)
    requires
        !s.contains(sep),
    ensures
        split(s, sep) == seq![s],
    decreases s.len(),
{
    if s.len() == 0 {
        assert(s =~= Seq::<char>::empty());
    } else {
        let front = s.drop_last();
        assert forall|i: int| 0 <= i < front.len() implies front[i] != sep by {
            assert(s[i] == front[i]);
            assert(s.contains(s[i]));
        }
        assert(!front.contains(sep));
        lemma_split_without_separator(front, sep);
        assert(s.contains(s.last()));
        assert(front.push(s.last()) =~= s);
        assert(split(s, sep) =~= seq![s]);
    }
}

/// A separator between two texts joins their lists of fields.
pub proof fn lemma_split_at_separator(a: Seq<char>, b: Seq<char>, sep: char)
    ensures
        split(a + seq![sep] + b, sep) == split(a, sep) + split(b, sep),
    decreases b.len(),
{
    let whole = a + seq![sep] + b;
    if b.len() == 0 {
        assert(whole.drop_last() =~= a);
        assert(split(whole, sep) =~= split(a, sep) + split(b, sep));
    } else {
        let shorter = b.drop_last();
        lemma_split_at_separator(a, shorter, sep);
        lemma_split_nonempty(shorter, sep);
        assert(whole.drop_last() =~= a + seq![sep] + shorter);
        assert(whole.last() == b.last());
        assert(split(whole, sep) =~= split(a, sep) + split(b, sep));
    }
}

/// The decimal notation of a number is a non-empty run of decimal digits
/// that denotes the number.
pub proof fn lemma_decimal_text_value(n: nat)
    ensures
        decimal_text(n).len() >= 1,
        all_digits(decimal_text(n), 10),
        number_value(decimal_text(n), 10) == n,
    decreases n,
{
    let text = decimal_text(n);
    if n < 10 {
        assert(digit_of(digit_char(n)) == Some(n));
        assert(text.drop_last() =~= Seq::<char>::empty());
        assert(number_value(text.drop_last(), 10) == 0);
    } else {
        lemma_decimal_text_value(n / 10);
        let front = decimal_text(n / 10);
        assert(digit_of(digit_char(n % 10)) == Some(n % 10));
        assert(text.drop_last() =~= front);
        assert forall|i: int| 0 <= i < text.len() implies is_digit(#[trigger] text[i], 10) by {
            if i < front.len() {
                assert(text[i] == front[i]);
            }
        }
    }
}

/// The characters of `text`, one element each.
pub fn chars_of(text: &str) -> (chars: Vec<char>)
    ensures
        chars@ == text@,
{
    let mut chars: Vec<char> = Vec::new();
    for c in it: text.chars()
        invariant
            it.seq() == text@,
            chars@ == it.seq().take(it.index()),
    {
        chars.push(c);
        assert(chars@ =~= it.seq().take(it.index() + 1));
    }
    assert(chars@ =~= text@);
    chars
}

/// Reads one character as a digit of radix sixteen or less.
pub fn read_digit(c: char) -> (digit: Option<u32>)
    ensures
        match digit {
            Some(d) => digit_of(c) == Some(d as nat),
            None => digit_of(c) is None,
        },
{
    if '0' <= c && c <= '9' {
        Some(c as u32 - '0' as u32)
    } else if 'a' <= c && c <= 'f' {
        Some(c as u32 - 'a' as u32 + 10)
    } else if 'A' <= c && c <= 'F' {
        Some(c as u32 - 'A' as u32 + 10)
    } else {
        None
    }
}

/// Reads `text` as a number of the given radix that does not exceed `limit`.
pub(crate) fn read_number(text: &[char], radix: u32, limit: u32) -> (number: Option<u32>)
    requires
        2 <= radix <= 16,
        limit <= 0xFFFF,
    ensures
        match number {
            Some(v) => bounded_number(text@, radix as nat, limit as nat) == Some(v as nat),
            None => bounded_number(text@, radix as nat, limit as nat) is None,
        },
{
    let n = text.len();
    if n == 0 {
        return None;
    }
    let mut value: u32 = 0;
    let mut i: usize = 0;
    while i < n
        invariant
            n == text@.len(),
            i <= n,
            2 <= radix <= 16,
            limit <= 0xFFFF,
            value <= limit,
            value == number_value(text@.take(i as int), radix as nat),
            all_digits(text@.take(i as int), radix as nat),
        decreases n - i,
    {
        let ghost seen = text@.take(i as int + 1);
        proof {
            assert(seen.drop_last() =~= text@.take(i as int));
            assert(seen.last() == text@[i as int]);
        }
        match read_digit(text[i]) {
            Some(d) => {
                if d >= radix {
                    assert(!is_digit(text@[i as int], radix as nat));
                    return None;
                }
                assert(value * radix <= 0xFFFF * 16) by (nonlinear_arith)
                    requires
                        value <= 0xFFFF,
                        radix <= 16,
                ;
                let next = value * radix + d;
                assert(next == number_value(seen, radix as nat));
                if next > limit {
                    proof {
                        lemma_number_value_prefix(text@, radix as nat, i as int + 1);
                    }
                    return None;
                }
                assert forall|j: int| 0 <= j < seen.len() implies is_digit(
                    #[trigger] seen[j],
                    radix as nat,
                ) by {
                    if j < i {
                        assert(seen[j] == text@.take(i as int)[j]);
                    }
                }
                value = next;
            },
            None => {
                assert(!is_digit(text@[i as int], radix as nat));
                return None;
            },
        }
        i += 1;
    }
    assert(text@.take(n as int) =~= text@);
    Some(value)
}

/// Whether `spans` lists, in order, where the fields of `s` between
/// occurrences of `sep` lie in `s`, as half-open index ranges.
pub open spec fn spans_of_fields(spans: Seq<(usize, usize)>, s: Seq<char>, sep: char) -> bool {
    &&& spans.len() == split(s, sep).len()
    &&& spans[0].0 == 0
    &&& spans.last().1 == s.len()
    &&& forall|k: int|
        0 <= k < spans.len() ==> {
            &&& (#[trigger] spans[k]).0 <= spans[k].1 <= s.len()
            &&& s.subrange(spans[k].0 as int, spans[k].1 as int) == split(s, sep)[k]
            &&& k + 1 < spans.len() ==> spans[k + 1].0 == spans[k].1 + 1
        }
}

/// Cuts `text` at every occurrence of `sep` and returns the fields as
/// half-open index ranges into `text`, in order.
pub fn split_fields(text: &[char], sep: char) -> (spans: Vec<(usize, usize)>)
    ensures
        spans_of_fields(spans@, text@, sep),
{
    let n = text.len();
    let mut spans: Vec<(usize, usize)> = Vec::new();
    let mut start: usize = 0;
    let mut i: usize = 0;
    while i < n
        invariant
            n == text@.len(),
            start <= i <= n,
            spans@.len() + 1 == split(text@.take(i as int), sep).len(),
            text@.subrange(start as int, i as int) == split(text@.take(i as int), sep).last(),
            start == if spans@.len() == 0 {
                0
            } else {
                spans@.last().1 + 1
            },
            spans@.len() > 0 ==> spans@[0].0 == 0,
            forall|k: int|
                0 <= k < spans@.len() ==> {
                    &&& (#[trigger] spans@[k]).0 <= spans@[k].1 < i
                    &&& text@.subrange(spans@[k].0 as int, spans@[k].1 as int) == split(
                        text@.take(i as int),
                        sep,
                    )[k]
                    &&& k + 1 < spans@.len() ==> spans@[k + 1].0 == spans@[k].1 + 1
                },
        decreases n - i,
    {
        let ghost before = split(text@.take(i as int), sep);
        let ghost seen = text@.take(i as int + 1);
        let ghost done = spans@;
        proof {
            assert(seen.drop_last() =~= text@.take(i as int));
            assert(seen.last() == text@[i as int]);
        }
        if text[i] == sep {
            spans.push((start, i));
            start = i + 1;
            proof {
                assert(split(seen, sep) == before.push(Seq::<char>::empty()));
                assert(text@.subrange(start as int, i as int + 1) =~= Seq::<char>::empty());
                assert forall|k: int| 0 <= k < spans@.len() implies {
                    &&& text@.subrange((#[trigger] spans@[k]).0 as int, spans@[k].1 as int)
                        == split(seen, sep)[k]
                    &&& k + 1 < spans@.len() ==> spans@[k + 1].0 == spans@[k].1 + 1
                } by {
                    if k < done.len() {
                        assert(spans@[k] == done[k]);
                    }
                    if k + 1 < done.len() {
                        assert(spans@[k + 1] == done[k + 1]);
                    }
                }
            }
        } else {
            proof {
                assert(split(seen, sep) == before.drop_last().push(
                    before.last().push(text@[i as int]),
                ));
                assert(text@.subrange(start as int, i as int + 1) =~= before.last().push(
                    text@[i as int],
                ));
                assert forall|k: int| 0 <= k < spans@.len() implies text@.subrange(
                    (#[trigger] spans@[k]).0 as int,
                    spans@[k].1 as int,
                ) == split(seen, sep)[k] by {
                    assert(spans@[k] == done[k]);
                }
            }
        }
        i += 1;
    }
    let ghost done = spans@;
    assert(text@.take(n as int) =~= text@);
    spans.push((start, n));
    proof {
        assert forall|k: int| 0 <= k < spans@.len() implies {
            &&& (#[trigger] spans@[k]).0 <= spans@[k].1 <= text@.len()
            &&& text@.subrange(spans@[k].0 as int, spans@[k].1 as int) == split(text@, sep)[k]
            &&& k + 1 < spans@.len() ==> spans@[k + 1].0 == spans@[k].1 + 1
        } by {
            if k < done.len() {
                assert(spans@[k] == done[k]);
            }
            if k + 1 < done.len() {
                assert(spans@[k + 1] == done[k + 1]);
            }
        }
        if done.len() > 0 {
            assert(spans@[0] == done[0]);
        }
    }
    spans
}

/// The one-character text of a decimal digit.
fn digit_text(d: u32) -> (text: &'static str)
    requires
        d < 10,
    ensures
        text@ == seq![digit_char(d as nat)],
{
    proof {
        reveal_strlit("0");
        reveal_strlit("1");
        reveal_strlit("2");
        reveal_strlit("3");
        reveal_strlit("4");
        reveal_strlit("5");
        reveal_strlit("6");
        reveal_strlit("7");
        reveal_strlit("8");
        reveal_strlit("9");
    }
    let text = match d {
        0 => "0",
        1 => "1",
        2 => "2",
        3 => "3",
        4 => "4",
        5 => "5",
        6 => "6",
        7 => "7",
        8 => "8",
        _ => "9",
    };
    assert(text@ =~= seq![digit_char(d as nat)]);
    text
}

/// Appends the decimal notation of `n` to `out`.
pub fn push_decimal(out: &mut String, n: u32)
    ensures
        final(out)@ == old(out)@ + decimal_text(n as nat),
    decreases n,
{
    if n >= 10 {
        push_decimal(out, n / 10);
    }
    out.append(digit_text(n % 10));
    proof {
        if n >= 10 {
            assert(final(out)@ =~= old(out)@ + decimal_text(n as nat));
        } else {
            assert(final(out)@ =~= old(out)@ + decimal_text(n as nat));
        }
    }
}

} // verus!

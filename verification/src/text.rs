//! The textual form of record content: addresses serialize to their
//! canonical text and parse back from it; any other string is kept
//! verbatim as opaque content.
//!
//! An IPv4 address reads and prints as four decimal octets joined by
//! dots, each without leading zeros. An IPv6 address prints as eight
//! lowercase hexadecimal groups joined by colons, without zero
//! compression, and reads back from that full form or from a form with
//! one double colon, hexadecimal case insensitive.

use vstd::prelude::*;

use crate::addr::{Ipv4Address, Ipv6Address};
use crate::cloudflare::DnsContent;

verus! {

/// Splitting at every separator, left to right; the empty text is one
/// empty piece.
pub open spec fn spec_split(t: Seq<char>, sep: char) -> Seq<Seq<char>>
    decreases t.len(),
{
    if t.len() == 0 {
        seq![Seq::<char>::empty()]
    } else {
        let r = spec_split(t.drop_last(), sep);
        if t.last() == sep {
            r.push(Seq::<char>::empty())
        } else {
            r.update(r.len() - 1, r.last().push(t.last()))
        }
    }
}

pub proof fn lemma_split_len(t: Seq<char>, sep: char)
    ensures
        spec_split(t, sep).len() >= 1,
    decreases t.len(),
{
    if t.len() > 0 {
        lemma_split_len(t.drop_last(), sep);
    }
}

/// Joining pieces with the separator between them.
pub open spec fn spec_join(parts: Seq<Seq<char>>, sep: char) -> Seq<char>
    decreases parts.len(),
{
    if parts.len() == 0 {
        Seq::<char>::empty()
    } else if parts.len() == 1 {
        parts[0]
    } else {
        spec_join(parts.drop_last(), sep).push(sep) + parts.last()
    }
}

/// Splitting undoes joining when no piece holds the separator.
pub proof fn lemma_split_sep_free(t: Seq<char>, sep: char)
    requires
        forall|i: int| 0 <= i < t.len() ==> t[i] != sep,
    ensures
        spec_split(t, sep) == seq![t],
    decreases t.len(),
{
    if t.len() == 0 {
        assert(spec_split(t, sep) =~~= seq![t]);
    } else {
        lemma_split_sep_free(t.drop_last(), sep);
        assert(spec_split(t, sep) =~~= seq![t.drop_last().push(t.last())]);
        assert(t.drop_last().push(t.last()) =~= t);
        assert(spec_split(t, sep) =~~= seq![t]);
    }
}

/// Appending separator-free text extends the last piece.
pub proof fn lemma_split_append_free(a: Seq<char>, b: Seq<char>, sep: char)
    requires
        forall|i: int| 0 <= i < b.len() ==> b[i] != sep,
    ensures
        spec_split(a + b, sep) == spec_split(a, sep).update(
            spec_split(a, sep).len() - 1,
            spec_split(a, sep).last() + b,
        ),
    decreases b.len(),
{
    lemma_split_len(a, sep);
    if b.len() == 0 {
        assert(a + b =~= a);
        assert(spec_split(a, sep).last() + b =~= spec_split(a, sep).last());
        assert(spec_split(a, sep).update(
            spec_split(a, sep).len() - 1,
            spec_split(a, sep).last() + b,
        ) =~~= spec_split(a, sep));
    } else {
        lemma_split_append_free(a, b.drop_last(), sep);
        assert(a + b =~= (a + b.drop_last()).push(b.last()));
        let r = spec_split(a, sep);
        let r2 = spec_split(a + b.drop_last(), sep);
        assert(r2 == r.update(r.len() - 1, r.last() + b.drop_last()));
        assert((a + b).last() == b.last());
        assert((a + b).drop_last() =~= a + b.drop_last());
        assert(spec_split(a + b, sep) == r2.update(r2.len() - 1, r2.last().push(b.last())));
        assert(r2.last() == r.last() + b.drop_last());
        assert((r.last() + b.drop_last()).push(b.last()) =~= r.last() + b);
        assert(r2.update(r2.len() - 1, r2.last().push(b.last())) =~~= r.update(
            r.len() - 1,
            r.last() + b,
        ));
    }
}

/// Splitting a joined sequence of separator-free pieces gives the pieces
/// back.
pub proof fn lemma_split_of_join(parts: Seq<Seq<char>>, sep: char)
    requires
        parts.len() >= 1,
        forall|p: int, i: int|
            #![trigger parts[p][i]]
            0 <= p < parts.len() && 0 <= i < parts[p].len() ==> parts[p][i] != sep,
    ensures
        spec_split(spec_join(parts, sep), sep) == parts,
    decreases parts.len(),
{
    if parts.len() == 1 {
        lemma_split_sep_free(parts[0], sep);
        assert(spec_join(parts, sep) == parts[0]);
        assert(spec_split(spec_join(parts, sep), sep) =~~= parts);
    } else {
        let front = parts.drop_last();
        lemma_split_of_join(front, sep);
        let a = spec_join(front, sep).push(sep);
        assert(spec_join(parts, sep) == a + parts.last());
        assert(a.drop_last() =~= spec_join(front, sep));
        assert(spec_split(a, sep) == spec_split(spec_join(front, sep), sep).push(
            Seq::<char>::empty(),
        ));
        lemma_split_append_free(a, parts.last(), sep);
        let r = front.push(Seq::<char>::empty());
        assert(spec_split(a + parts.last(), sep) == r.update(
            r.len() - 1,
            r.last() + parts.last(),
        ));
        assert(Seq::<char>::empty() + parts.last() =~= parts.last());
        assert(r.update(r.len() - 1, r.last() + parts.last()) =~~= parts);
    }
}

/// Joining what splitting produced gives the text back.
pub proof fn lemma_join_of_split(t: Seq<char>, sep: char)
    ensures
        spec_join(spec_split(t, sep), sep) == t,
    decreases t.len(),
{
    if t.len() == 0 {
    } else {
        lemma_join_of_split(t.drop_last(), sep);
        lemma_split_len(t.drop_last(), sep);
        let r = spec_split(t.drop_last(), sep);
        if t.last() == sep {
            assert(spec_join(r.push(Seq::<char>::empty()), sep) == spec_join(
                (r.push(Seq::<char>::empty())).drop_last(),
                sep,
            ).push(sep) + Seq::<char>::empty());
            assert((r.push(Seq::<char>::empty())).drop_last() =~= r);
            assert(spec_join(r, sep).push(sep) + Seq::<char>::empty() =~= t.drop_last().push(
                t.last(),
            ));
            assert(t.drop_last().push(t.last()) =~= t);
        } else {
            let r2 = r.update(r.len() - 1, r.last().push(t.last()));
            if r.len() == 1 {
                assert(spec_join(r2, sep) == r2[0]);
                assert(r2[0] == r[0].push(t.last()));
                assert(spec_join(r, sep) == r[0]);
                assert(r[0].push(t.last()) =~= t.drop_last().push(t.last()));
                assert(t.drop_last().push(t.last()) =~= t);
            } else {
                assert(r2.drop_last() =~= r.drop_last());
                assert(spec_join(r2, sep) == spec_join(r.drop_last(), sep).push(sep)
                    + r.last().push(t.last()));
                assert(spec_join(r, sep) == spec_join(r.drop_last(), sep).push(sep) + r.last());
                assert(spec_join(r.drop_last(), sep).push(sep) + r.last().push(t.last()) =~= (
                spec_join(r.drop_last(), sep).push(sep) + r.last()).push(t.last()));
                assert(t.drop_last().push(t.last()) =~= t);
            }
        }
    }
}

/// Every character of a join is the separator or sits in some piece.
pub proof fn lemma_join_chars(parts: Seq<Seq<char>>, sep: char, k: int)
    requires
        0 <= k < spec_join(parts, sep).len(),
    ensures
        spec_join(parts, sep)[k] == sep || exists|p: int, i: int|
            #![trigger parts[p][i]]
            0 <= p < parts.len() && 0 <= i < parts[p].len() && parts[p][i] == spec_join(
                parts,
                sep,
            )[k],
    decreases parts.len(),
{
    if parts.len() == 0 {
    } else if parts.len() == 1 {
        assert(parts[0][k] == spec_join(parts, sep)[k]);
    } else {
        let front = spec_join(parts.drop_last(), sep);
        if k < front.len() {
            lemma_join_chars(parts.drop_last(), sep, k);
            assert(spec_join(parts, sep)[k] == front[k]);
            if front[k] != sep {
                let (p, i) = choose|p: int, i: int|
                    #![trigger parts.drop_last()[p][i]]
                    0 <= p < parts.drop_last().len() && 0 <= i < parts.drop_last()[p].len()
                        && parts.drop_last()[p][i] == front[k];
                assert(parts[p][i] == spec_join(parts, sep)[k]);
            }
        } else if k == front.len() {
            assert(spec_join(parts, sep)[k] == sep);
        } else {
            let i = k - front.len() - 1;
            assert(parts[parts.len() - 1][i] == spec_join(parts, sep)[k]);
        }
    }
}

/// A decimal digit.
pub open spec fn spec_is_digit(c: char) -> bool {
    48 <= c as int <= 57
}

/// A hexadecimal digit, either case.
pub open spec fn spec_is_hex_digit(c: char) -> bool {
    spec_is_digit(c) || 97 <= c as int <= 102 || 65 <= c as int <= 70
}

pub open spec fn spec_digit_val(c: char) -> int {
    c as int - 48
}

pub open spec fn spec_hex_val(c: char) -> int {
    if spec_is_digit(c) {
        c as int - 48
    } else if 97 <= c as int <= 102 {
        c as int - 87
    } else {
        c as int - 55
    }
}

/// The numeric value of a decimal digit string.
pub open spec fn spec_dec_val(t: Seq<char>) -> int
    decreases t.len(),
{
    if t.len() == 0 {
        0
    } else {
        spec_dec_val(t.drop_last()) * 10 + spec_digit_val(t.last())
    }
}

/// The numeric value of a hexadecimal digit string.
pub open spec fn spec_hex_val_of(t: Seq<char>) -> int
    decreases t.len(),
{
    if t.len() == 0 {
        0
    } else {
        spec_hex_val_of(t.drop_last()) * 16 + spec_hex_val(t.last())
    }
}

/// The digit character of a value below ten.
pub open spec fn spec_digit_char(d: int) -> char {
    if d == 0 {
        '0'
    } else if d == 1 {
        '1'
    } else if d == 2 {
        '2'
    } else if d == 3 {
        '3'
    } else if d == 4 {
        '4'
    } else if d == 5 {
        '5'
    } else if d == 6 {
        '6'
    } else if d == 7 {
        '7'
    } else if d == 8 {
        '8'
    } else {
        '9'
    }
}

/// The lowercase digit character of a value below sixteen.
pub open spec fn spec_hex_char(d: int) -> char {
    if d < 10 {
        spec_digit_char(d)
    } else if d == 10 {
        'a'
    } else if d == 11 {
        'b'
    } else if d == 12 {
        'c'
    } else if d == 13 {
        'd'
    } else if d == 14 {
        'e'
    } else {
        'f'
    }
}

/// The decimal text of a number, most significant digit first, without
/// leading zeros.
pub open spec fn spec_dec_text(n: int) -> Seq<char>
    decreases n,
{
    if n <= 9 {
        seq![spec_digit_char(n)]
    } else {
        spec_dec_text(n / 10).push(spec_digit_char(n % 10))
    }
}

/// The lowercase hexadecimal text of a number, without leading zeros.
pub open spec fn spec_hex_text(n: int) -> Seq<char>
    decreases n,
{
    if n <= 15 {
        seq![spec_hex_char(n)]
    } else {
        spec_hex_text(n / 16).push(spec_hex_char(n % 16))
    }
}

/// Decimal text reads back to its number, consists of digits, never
/// starts with a zero unless it is "0", and stays short for octets.
pub proof fn lemma_dec_text(n: int)
    requires
        0 <= n,
    ensures
        spec_dec_text(n).len() >= 1,
        forall|i: int| 0 <= i < spec_dec_text(n).len() ==> spec_is_digit(#[trigger] spec_dec_text(n)[i]),
        spec_dec_val(spec_dec_text(n)) == n,
        spec_dec_text(n).len() > 1 ==> spec_dec_text(n)[0] != '0',
        n <= 9 ==> spec_dec_text(n).len() == 1,
        n <= 99 ==> spec_dec_text(n).len() <= 2,
        n <= 255 ==> spec_dec_text(n).len() <= 3,
    decreases n,
{
    reveal_with_fuel(spec_dec_text, 3);
    reveal_with_fuel(spec_dec_val, 3);
    assert forall|d: int| 0 <= d <= 9 implies spec_digit_val(#[trigger] spec_digit_char(d))
        == d && spec_is_digit(spec_digit_char(d)) && (d >= 1 ==> spec_digit_char(d) != '0') by {
        if d == 0 {
        } else if d == 1 {
        } else if d == 2 {
        } else if d == 3 {
        } else if d == 4 {
        } else if d == 5 {
        } else if d == 6 {
        } else if d == 7 {
        } else if d == 8 {
        } else {
        }
    }
    if n <= 9 {
        let t = spec_dec_text(n);
        assert(t == seq![spec_digit_char(n)]);
        assert(t.drop_last() =~= Seq::<char>::empty());
        assert(spec_dec_val(t) == spec_digit_val(spec_digit_char(n)));
    } else {
        lemma_dec_text(n / 10);
        let t = spec_dec_text(n);
        assert(t == spec_dec_text(n / 10).push(spec_digit_char(n % 10)));
        assert(t.drop_last() =~= spec_dec_text(n / 10));
        assert(spec_dec_val(t) == spec_dec_val(spec_dec_text(n / 10)) * 10 + spec_digit_val(
            spec_digit_char(n % 10),
        ));
        assert(t[0] == spec_dec_text(n / 10)[0]);
        if spec_dec_text(n / 10).len() == 1 {
            assert(spec_dec_text(n / 10) == seq![spec_digit_char(n / 10)]);
            assert(n / 10 >= 1);
            assert(t[0] != '0');
        }
    }
}

/// Hexadecimal text reads back to its number, consists of hexadecimal
/// digits, and a group value stays within four digits.
pub proof fn lemma_hex_text(n: int)
    requires
        0 <= n,
    ensures
        spec_hex_text(n).len() >= 1,
        forall|i: int|
            0 <= i < spec_hex_text(n).len() ==> spec_is_hex_digit(#[trigger] spec_hex_text(n)[i]),
        spec_hex_val_of(spec_hex_text(n)) == n,
        n <= 15 ==> spec_hex_text(n).len() == 1,
        n <= 255 ==> spec_hex_text(n).len() <= 2,
        n <= 4095 ==> spec_hex_text(n).len() <= 3,
        n <= 65535 ==> spec_hex_text(n).len() <= 4,
    decreases n,
{
    reveal_with_fuel(spec_hex_text, 3);
    reveal_with_fuel(spec_hex_val_of, 3);
    assert forall|d: int| 0 <= d <= 15 implies spec_hex_val(#[trigger] spec_hex_char(d)) == d
        && spec_is_hex_digit(spec_hex_char(d)) by {
        if d == 10 {
        } else if d == 11 {
        } else if d == 12 {
        } else if d == 13 {
        } else if d == 14 {
        } else if d == 15 {
        } else {
            assert(spec_hex_char(d) == spec_digit_char(d));
            if d == 0 {
            } else if d == 1 {
            } else if d == 2 {
            } else if d == 3 {
            } else if d == 4 {
            } else if d == 5 {
            } else if d == 6 {
            } else if d == 7 {
            } else if d == 8 {
            } else {
            }
        }
    }
    if n <= 15 {
        let t = spec_hex_text(n);
        assert(t == seq![spec_hex_char(n)]);
        assert(t.drop_last() =~= Seq::<char>::empty());
        assert(spec_hex_val_of(t) == spec_hex_val(spec_hex_char(n)));
    } else {
        lemma_hex_text(n / 16);
        let t = spec_hex_text(n);
        assert(t == spec_hex_text(n / 16).push(spec_hex_char(n % 16)));
        assert(t.drop_last() =~= spec_hex_text(n / 16));
        assert(spec_hex_val_of(t) == spec_hex_val_of(spec_hex_text(n / 16)) * 16 + spec_hex_val(
            spec_hex_char(n % 16),
        ));
    }
}

/// A valid dotted-form octet: one to three digits, no leading zero, at
/// most 255.
pub open spec fn spec_valid_octet(t: Seq<char>) -> bool {
    &&& 1 <= t.len() <= 3
    &&& forall|i: int| 0 <= i < t.len() ==> spec_is_digit(#[trigger] t[i])
    &&& (t.len() > 1 ==> t[0] != '0')
    &&& spec_dec_val(t) <= 255
}

/// A valid colon-form group: one to four hexadecimal digits.
pub open spec fn spec_valid_group(t: Seq<char>) -> bool {
    &&& 1 <= t.len() <= 4
    &&& forall|i: int| 0 <= i < t.len() ==> spec_is_hex_digit(#[trigger] t[i])
}

/// Value bounds for one- and two-digit strings.
pub proof fn lemma_dec_val_small(t: Seq<char>)
    requires
        forall|i: int| 0 <= i < t.len() ==> spec_is_digit(#[trigger] t[i]),
    ensures
        spec_dec_val(t) >= 0,
        t.len() <= 1 ==> spec_dec_val(t) <= 9,
        t.len() <= 2 ==> spec_dec_val(t) <= 99,
    decreases t.len(),
{
    if t.len() > 0 {
        assert(forall|i: int|
            0 <= i < t.drop_last().len() ==> spec_is_digit(#[trigger] t.drop_last()[i]));
        lemma_dec_val_small(t.drop_last());
    }
}

/// Group values are nonnegative and fit sixteen bits.
pub proof fn lemma_hex_val_bounds(t: Seq<char>)
    requires
        forall|i: int| 0 <= i < t.len() ==> spec_is_hex_digit(#[trigger] t[i]),
    ensures
        spec_hex_val_of(t) >= 0,
        t.len() <= 4 ==> spec_hex_val_of(t) <= 65535,
        t.len() <= 3 ==> spec_hex_val_of(t) <= 4095,
        t.len() <= 2 ==> spec_hex_val_of(t) <= 255,
        t.len() <= 1 ==> spec_hex_val_of(t) <= 15,
    decreases t.len(),
{
    if t.len() > 0 {
        assert(forall|i: int|
            0 <= i < t.drop_last().len() ==> spec_is_hex_digit(#[trigger] t.drop_last()[i]));
        lemma_hex_val_bounds(t.drop_last());
    }
}

/// The four dotted pieces of an IPv4 address's canonical text.
pub open spec fn spec_v4_parts(a: Ipv4Address) -> Seq<Seq<char>> {
    seq![
        spec_dec_text(a.o0 as int),
        spec_dec_text(a.o1 as int),
        spec_dec_text(a.o2 as int),
        spec_dec_text(a.o3 as int),
    ]
}

/// The canonical text of an IPv4 address.
pub open spec fn spec_v4_text(a: Ipv4Address) -> Seq<char> {
    spec_join(spec_v4_parts(a), '.')
}

/// The eight colon pieces of an IPv6 address's canonical text.
pub open spec fn spec_v6_parts(a: Ipv6Address) -> Seq<Seq<char>> {
    Seq::new(8, |i: int| spec_hex_text(a.spec_segment(i) as int))
}

/// The canonical text of an IPv6 address.
pub open spec fn spec_v6_text(a: Ipv6Address) -> Seq<char> {
    spec_join(spec_v6_parts(a), ':')
}

/// What IPv4 text parses to, if anything: four valid octets joined by
/// dots.
pub open spec fn spec_parse_v4(t: Seq<char>) -> Option<Ipv4Address> {
    let ps = spec_split(t, '.');
    if ps.len() == 4 && (forall|i: int| 0 <= i < 4 ==> spec_valid_octet(#[trigger] ps[i])) {
        Some(
            Ipv4Address {
                o0: spec_dec_val(ps[0]) as u8,
                o1: spec_dec_val(ps[1]) as u8,
                o2: spec_dec_val(ps[2]) as u8,
                o3: spec_dec_val(ps[3]) as u8,
            },
        )
    } else {
        None
    }
}

/// No piece in the range is empty.
pub open spec fn spec_no_empty(ps: Seq<Seq<char>>, from: int, to: int) -> bool {
    forall|i: int| from <= i < to ==> (#[trigger] ps[i]).len() > 0
}

/// Every piece in the range is a valid group.
pub open spec fn spec_groups_valid(ps: Seq<Seq<char>>, from: int, to: int) -> bool {
    forall|i: int| from <= i < to ==> spec_valid_group(#[trigger] ps[i])
}

/// The index of the first empty piece, or the length if none is empty.
pub open spec fn spec_first_empty(ps: Seq<Seq<char>>) -> int
    decreases ps.len(),
{
    if ps.len() == 0 {
        0
    } else if ps[0].len() == 0 {
        0
    } else {
        1 + spec_first_empty(ps.drop_first())
    }
}

pub proof fn lemma_first_empty(ps: Seq<Seq<char>>, j: int)
    requires
        0 <= j <= ps.len(),
        forall|i: int| 0 <= i < j ==> (#[trigger] ps[i]).len() > 0,
        j < ps.len() ==> ps[j as int].len() == 0,
        j == ps.len() ==> spec_no_empty(ps, 0, ps.len() as int),
    ensures
        j < ps.len() ==> spec_first_empty(ps) == j,
    decreases j,
{
    if j > 0 && j < ps.len() {
        lemma_first_empty(ps.drop_first(), j - 1);
    }
}

/// The numeric values of the pieces, read as hexadecimal groups.
pub open spec fn spec_group_vals(ps: Seq<Seq<char>>) -> Seq<int> {
    ps.map_values(|p: Seq<char>| spec_hex_val_of(p))
}

/// The segment at position `i` of an address whose leading segments are
/// `front`, whose trailing segments are `back`, and whose middle is
/// zeros.
pub open spec fn spec_seg(front: Seq<int>, back: Seq<int>, i: int) -> int {
    if i < front.len() {
        front[i]
    } else if i >= 8 - back.len() {
        back[i - (8 - back.len())]
    } else {
        0
    }
}

/// The address with the given leading and trailing groups, zeros between.
pub open spec fn spec_v6_of(front: Seq<Seq<char>>, back: Seq<Seq<char>>) -> Ipv6Address {
    let fv = spec_group_vals(front);
    let bv = spec_group_vals(back);
    Ipv6Address {
        s0: spec_seg(fv, bv, 0) as u16,
        s1: spec_seg(fv, bv, 1) as u16,
        s2: spec_seg(fv, bv, 2) as u16,
        s3: spec_seg(fv, bv, 3) as u16,
        s4: spec_seg(fv, bv, 4) as u16,
        s5: spec_seg(fv, bv, 5) as u16,
        s6: spec_seg(fv, bv, 6) as u16,
        s7: spec_seg(fv, bv, 7) as u16,
    }
}

/// What IPv6 text parses to, if anything: eight valid groups joined by
/// colons, or a form with one double colon standing for at least one
/// zero group — leading, trailing, between groups, or alone.
pub open spec fn spec_parse_v6(t: Seq<char>) -> Option<Ipv6Address> {
    let ps = spec_split(t, ':');
    let n = ps.len() as int;
    if spec_no_empty(ps, 0, n) {
        // No double colon: exactly eight groups.
        if n == 8 && spec_groups_valid(ps, 0, 8) {
            Some(spec_v6_of(ps, Seq::<Seq<char>>::empty()))
        } else {
            None
        }
    } else if n == 3 && ps[0].len() == 0 && ps[1].len() == 0 && ps[2].len() == 0 {
        // The double colon alone: the all-zero address.
        Some(spec_v6_of(Seq::<Seq<char>>::empty(), Seq::<Seq<char>>::empty()))
    } else if n >= 3 && ps[0].len() == 0 && ps[1].len() == 0 && spec_no_empty(ps, 2, n) {
        // A leading double colon: up to seven trailing groups.
        if n <= 9 && spec_groups_valid(ps, 2, n) {
            Some(spec_v6_of(Seq::<Seq<char>>::empty(), ps.subrange(2, n)))
        } else {
            None
        }
    } else if n >= 3 && ps[n - 1].len() == 0 && ps[n - 2].len() == 0 && spec_no_empty(
        ps,
        0,
        n - 2,
    ) {
        // A trailing double colon: up to seven leading groups.
        if n <= 9 && spec_groups_valid(ps, 0, n - 2) {
            Some(spec_v6_of(ps.subrange(0, n - 2), Seq::<Seq<char>>::empty()))
        } else {
            None
        }
    } else {
        // A double colon between groups: one empty piece strictly inside.
        let j = spec_first_empty(ps);
        if 1 <= j <= n - 2 && spec_no_empty(ps, j + 1, n) && n <= 8 && spec_groups_valid(ps, 0, j)
            && spec_groups_valid(ps, j + 1, n) {
            Some(spec_v6_of(ps.subrange(0, j), ps.subrange(j + 1, n)))
        } else {
            None
        }
    }
}

/// The canonical text of an address parses back to that address.
pub proof fn lemma_parse_v4_of_text(a: Ipv4Address)
    ensures
        spec_parse_v4(spec_v4_text(a)) == Some(a),
{
    let parts = spec_v4_parts(a);
    lemma_dec_text(a.o0 as int);
    lemma_dec_text(a.o1 as int);
    lemma_dec_text(a.o2 as int);
    lemma_dec_text(a.o3 as int);
    assert forall|p: int, i: int|
        #![trigger parts[p][i]]
        0 <= p < parts.len() && 0 <= i < parts[p].len() implies parts[p][i] != '.' by {
        assert(spec_is_digit(parts[p][i]));
    }
    lemma_split_of_join(parts, '.');
    assert(spec_valid_octet(parts[0]));
    assert(spec_valid_octet(parts[1]));
    assert(spec_valid_octet(parts[2]));
    assert(spec_valid_octet(parts[3]));
    assert(spec_parse_v4(spec_v4_text(a)) == Some(a));
}

/// The canonical text of an IPv6 address parses back to that address.
pub proof fn lemma_parse_v6_of_text(a: Ipv6Address)
    ensures
        spec_parse_v6(spec_v6_text(a)) == Some(a),
{
    let parts = spec_v6_parts(a);
    assert forall|p: int| 0 <= p < 8 implies spec_valid_group(#[trigger] parts[p]) by {
        lemma_hex_text(a.spec_segment(p) as int);
    }
    assert forall|p: int, i: int|
        #![trigger parts[p][i]]
        0 <= p < parts.len() && 0 <= i < parts[p].len() implies parts[p][i] != ':' by {
        assert(spec_is_hex_digit(parts[p][i]));
    }
    lemma_split_of_join(parts, ':');
    assert(spec_no_empty(parts, 0, 8));
    assert forall|p: int| 0 <= p < 8 implies spec_hex_val_of(#[trigger] parts[p])
        == a.spec_segment(p) as int by {
        lemma_hex_text(a.spec_segment(p) as int);
    }
    let fv = spec_group_vals(parts);
    assert(forall|p: int| 0 <= p < 8 ==> #[trigger] fv[p] == spec_hex_val_of(parts[p]));
    let b = spec_parse_v6(spec_v6_text(a)).unwrap();
    assert(b.s0 == a.s0 && b.s1 == a.s1 && b.s2 == a.s2 && b.s3 == a.s3 && b.s4 == a.s4 && b.s5
        == a.s5 && b.s6 == a.s6 && b.s7 == a.s7);
}

/// Text that parses as IPv4 consists of digits and dots only.
pub proof fn lemma_v4_text_chars(t: Seq<char>, k: int)
    requires
        spec_parse_v4(t) is Some,
        0 <= k < t.len(),
    ensures
        t[k] == '.' || spec_is_digit(t[k]),
{
    let ps = spec_split(t, '.');
    lemma_join_of_split(t, '.');
    lemma_join_chars(ps, '.', k);
    if t[k] != '.' {
        let (p, i) = choose|p: int, i: int|
            #![trigger ps[p][i]]
            0 <= p < ps.len() && 0 <= i < ps[p].len() && ps[p][i] == spec_join(ps, '.')[k];
        assert(spec_valid_octet(ps[p]));
        assert(spec_is_digit(ps[p][i]));
    }
}

/// IPv6 text never parses as IPv4: it holds a colon, which IPv4 text
/// cannot.
pub proof fn lemma_v6_text_not_v4(a: Ipv6Address)
    ensures
        spec_parse_v4(spec_v6_text(a)) is None,
{
    let parts = spec_v6_parts(a);
    let t = spec_v6_text(a);
    lemma_hex_text(a.spec_segment(0) as int);
    // The join of eight pieces holds a separator right after the first.
    let front = spec_join(parts.take(2), ':');
    assert(parts.take(2).drop_last() =~= parts.take(1));
    assert(spec_join(parts.take(1), ':') == parts[0]);
    assert(front == parts[0].push(':') + parts[1]);
    lemma_join_take_prefix(parts, ':', 2);
    let k = parts[0].len() as int;
    assert(front[k] == ':');
    assert(t[k] == ':');
    if spec_parse_v4(t) is Some {
        lemma_v4_text_chars(t, k);
        assert(false);
    }
}

/// A join of a prefix of the pieces is a prefix of the whole join.
pub proof fn lemma_join_take_prefix(parts: Seq<Seq<char>>, sep: char, n: int)
    requires
        1 <= n <= parts.len(),
    ensures
        spec_join(parts.take(n), sep).len() <= spec_join(parts, sep).len(),
        forall|k: int|
            0 <= k < spec_join(parts.take(n), sep).len() ==> spec_join(parts, sep)[k] == #[trigger] spec_join(
                parts.take(n),
                sep,
            )[k],
    decreases parts.len() - n,
{
    if n == parts.len() {
        assert(parts.take(n) =~= parts);
    } else {
        lemma_join_take_prefix(parts, sep, n + 1);
        let a = spec_join(parts.take(n), sep);
        let b = spec_join(parts.take(n + 1), sep);
        assert(parts.take(n + 1).drop_last() =~= parts.take(n));
        if n == 0 {
        } else {
            if parts.take(n + 1).len() == 1 {
                assert(false);
            } else {
                assert(b == a.push(sep) + parts.take(n + 1).last());
                assert(forall|k: int| 0 <= k < a.len() ==> b[k] == a[k]);
            }
        }
    }
}


/// Splits the text at every separator; the pieces carry no separator and
/// join back to the text.
#[verifier::loop_isolation(false)]
fn split_chars(s: &str, sep: char) -> (r: Vec<String>)
    ensures
        r@.len() == spec_split(s@, sep).len(),
        forall|i: int| 0 <= i < r@.len() ==> (#[trigger] r@[i])@ == spec_split(s@, sep)[i],
{
    let n = s.unicode_len();
    let mut parts: Vec<String> = Vec::new();
    let mut start: usize = 0;
    let mut k: usize = 0;
    proof {
        assert(s@.take(0) =~= Seq::<char>::empty());
        assert(s@.subrange(0, 0) =~= Seq::<char>::empty());
        lemma_split_len(s@.take(0), sep);
    }
    while k < n
        invariant
            n == s@.len(),
            k <= n,
            start <= k,
            parts@.len() + 1 == spec_split(s@.take(k as int), sep).len(),
            forall|i: int|
                0 <= i < parts@.len() ==> (#[trigger] parts@[i])@ == spec_split(
                    s@.take(k as int),
                    sep,
                )[i],
            s@.subrange(start as int, k as int) == spec_split(s@.take(k as int), sep).last(),
        decreases n - k,
    {
        let ghost old_split = spec_split(s@.take(k as int), sep);
        let ghost parts_before = parts@;
        proof {
            lemma_split_len(s@.take(k as int), sep);
            assert(s@.take(k as int + 1) =~= s@.take(k as int).push(s@[k as int]));
            assert(s@.take(k as int + 1).drop_last() =~= s@.take(k as int));
            assert(s@.take(k as int + 1).last() == s@[k as int]);
        }
        let c = s.get_char(k);
        if c == sep {
            proof {
                assert(spec_split(s@.take(k as int + 1), sep) == old_split.push(
                    Seq::<char>::empty(),
                ));
            }
            let piece = s.substring_char(start, k).to_owned();
            parts.push(piece);
            start = k + 1;
            proof {
                assert(s@.subrange(start as int, k as int + 1) =~= Seq::<char>::empty());
                let new_split = spec_split(s@.take(k as int + 1), sep);
                assert forall|i: int| 0 <= i < parts@.len() implies (#[trigger] parts@[i])@
                    == new_split[i] by {
                    if i < parts_before.len() {
                        assert(parts@[i] == parts_before[i]);
                        assert(new_split[i] == old_split[i]);
                    } else {
                        assert(parts@[i]@ == old_split.last());
                        assert(new_split[i] == old_split.last());
                    }
                }
            }
        } else {
            proof {
                assert(spec_split(s@.take(k as int + 1), sep) == old_split.update(
                    old_split.len() - 1,
                    old_split.last().push(s@[k as int]),
                ));
                assert(s@.subrange(start as int, k as int + 1) =~= s@.subrange(
                    start as int,
                    k as int,
                ).push(s@[k as int]));
                let new_split = spec_split(s@.take(k as int + 1), sep);
                assert forall|i: int| 0 <= i < parts@.len() implies (#[trigger] parts@[i])@
                    == new_split[i] by {
                    assert(new_split[i] == old_split[i]);
                }
            }
        }
        k += 1;
    }
    let piece = s.substring_char(start, n).to_owned();
    let ghost parts_before = parts@;
    parts.push(piece);
    proof {
        assert(s@.take(n as int) =~= s@);
        let whole = spec_split(s@, sep);
        assert forall|i: int| 0 <= i < parts@.len() implies (#[trigger] parts@[i])@
            == whole[i] by {
            if i < parts_before.len() {
                assert(parts@[i] == parts_before[i]);
            } else {
                assert(parts@[i]@ == whole.last());
            }
        }
    }
    parts
}

/// The value of a decimal digit character, if it is one.
fn digit_value(c: char) -> (r: Option<u8>)
    ensures
        r is Some <==> spec_is_digit(c),
        r is Some ==> r.unwrap() == spec_digit_val(c) && r.unwrap() <= 9,
{
    let v = c as u32;
    if 48 <= v && v <= 57 {
        Some((v - 48) as u8)
    } else {
        None
    }
}

/// The value of a hexadecimal digit character, either case, if it is one.
fn hex_digit_value(c: char) -> (r: Option<u8>)
    ensures
        r is Some <==> spec_is_hex_digit(c),
        r is Some ==> r.unwrap() == spec_hex_val(c) && r.unwrap() <= 15,
{
    let v = c as u32;
    if 48 <= v && v <= 57 {
        Some((v - 48) as u8)
    } else if 97 <= v && v <= 102 {
        Some((v - 87) as u8)
    } else if 65 <= v && v <= 70 {
        Some((v - 55) as u8)
    } else {
        None
    }
}

/// Reads a dotted-form octet: one to three digits, no leading zero, at
/// most 255.
#[verifier::loop_isolation(false)]
fn parse_octet(p: &str) -> (r: Option<u8>)
    ensures
        r is Some <==> spec_valid_octet(p@),
        r is Some ==> r.unwrap() == spec_dec_val(p@),
{
    let n = p.unicode_len();
    if n == 0 || n > 3 {
        return None;
    }
    if n > 1 && p.get_char(0) == '0' {
        return None;
    }
    let mut acc: u16 = 0;
    let mut k: usize = 0;
    proof {
        assert(p@.take(0) =~= Seq::<char>::empty());
    }
    while k < n
        invariant
            n == p@.len(),
            k <= n,
            n <= 3,
            forall|i: int| 0 <= i < k ==> spec_is_digit(#[trigger] p@[i]),
            acc == spec_dec_val(p@.take(k as int)),
            acc <= 999,
        decreases n - k,
    {
        proof {
            assert(p@.take(k as int + 1).drop_last() =~= p@.take(k as int));
            assert(forall|i: int| 0 <= i < k ==> spec_is_digit(#[trigger] p@.take(k as int)[i]));
            lemma_dec_val_small(p@.take(k as int));
        }
        let c = p.get_char(k);
        match digit_value(c) {
            Some(d) => {
                acc = acc * 10 + (d as u16);
            },
            None => {
                return None;
            },
        }
        k += 1;
    }
    proof {
        assert(p@.take(n as int) =~= p@);
    }
    if acc > 255 {
        return None;
    }
    Some(acc as u8)
}

/// Reads a colon-form group: one to four hexadecimal digits.
#[verifier::loop_isolation(false)]
fn parse_group(p: &str) -> (r: Option<u16>)
    ensures
        r is Some <==> spec_valid_group(p@),
        r is Some ==> r.unwrap() == spec_hex_val_of(p@),
{
    let n = p.unicode_len();
    if n == 0 || n > 4 {
        return None;
    }
    let mut acc: u32 = 0;
    let mut k: usize = 0;
    proof {
        assert(p@.take(0) =~= Seq::<char>::empty());
    }
    while k < n
        invariant
            n == p@.len(),
            k <= n,
            n <= 4,
            forall|i: int| 0 <= i < k ==> spec_is_hex_digit(#[trigger] p@[i]),
            acc == spec_hex_val_of(p@.take(k as int)),
            acc <= 65535,
        decreases n - k,
    {
        proof {
            assert(p@.take(k as int + 1).drop_last() =~= p@.take(k as int));
            assert(forall|i: int|
                0 <= i < k ==> spec_is_hex_digit(#[trigger] p@.take(k as int)[i]));
            lemma_hex_val_bounds(p@.take(k as int));
        }
        let c = p.get_char(k);
        match hex_digit_value(c) {
            Some(d) => {
                acc = acc * 16 + (d as u32);
            },
            None => {
                return None;
            },
        }
        k += 1;
    }
    proof {
        assert(p@.take(n as int) =~= p@);
    }
    Some(acc as u16)
}

/// Reads the dotted form of an IPv4 address, if the text is one.
#[verifier::loop_isolation(false)]
pub fn parse_v4(s: &str) -> (r: Option<Ipv4Address>)
    ensures
        r == spec_parse_v4(s@),
{
    let parts = split_chars(s, '.');
    if parts.len() != 4 {
        return None;
    }
    let o0 = parse_octet(parts[0].as_str());
    let o1 = parse_octet(parts[1].as_str());
    let o2 = parse_octet(parts[2].as_str());
    let o3 = parse_octet(parts[3].as_str());
    match (o0, o1, o2, o3) {
        (Some(o0), Some(o1), Some(o2), Some(o3)) => Some(Ipv4Address { o0, o1, o2, o3 }),
        _ => None,
    }
}

/// Whether no piece in the range is empty.
#[verifier::loop_isolation(false)]
fn range_no_empty(parts: &Vec<String>, from: usize, to: usize) -> (r: bool)
    requires
        from <= to <= parts@.len(),
    ensures
        r == (forall|i: int| from <= i < to ==> (#[trigger] parts@[i])@.len() > 0),
{
    let mut i: usize = from;
    while i < to
        invariant
            from <= i <= to,
            forall|k: int| from <= k < i ==> (#[trigger] parts@[k])@.len() > 0,
        decreases to - i,
    {
        if parts[i].as_str().is_empty() {
            return false;
        }
        i += 1;
    }
    true
}

/// The index of the first empty piece, or the length if none is empty.
#[verifier::loop_isolation(false)]
fn first_empty_index(parts: &Vec<String>) -> (j: usize)
    ensures
        j <= parts@.len(),
        forall|i: int| 0 <= i < j ==> (#[trigger] parts@[i])@.len() > 0,
        j < parts@.len() ==> parts@[j as int]@.len() == 0,
{
    let n = parts.len();
    let mut i: usize = 0;
    while i < n
        invariant
            i <= n,
            n == parts@.len(),
            forall|k: int| 0 <= k < i ==> (#[trigger] parts@[k])@.len() > 0,
        decreases n - i,
    {
        if parts[i].as_str().is_empty() {
            return i;
        }
        i += 1;
    }
    n
}

/// Reads the pieces in the range as hexadecimal groups, or reports the
/// first invalid one.
#[verifier::loop_isolation(false)]
fn parse_range(parts: &Vec<String>, from: usize, to: usize) -> (r: Option<Vec<u16>>)
    requires
        from <= to <= parts@.len(),
    ensures
        match r {
            Some(vals) => {
                &&& vals@.len() == to - from
                &&& forall|i: int| from <= i < to ==> spec_valid_group((#[trigger] parts@[i])@)
                &&& forall|i: int|
                    from <= i < to ==> #[trigger] vals@[i - from] == spec_hex_val_of(parts@[i]@)
            },
            None => exists|i: int| from <= i < to && !spec_valid_group((#[trigger] parts@[i])@),
        },
{
    let mut vals: Vec<u16> = Vec::new();
    let mut i: usize = from;
    while i < to
        invariant
            from <= i <= to,
            vals@.len() == i - from,
            forall|k: int| from <= k < i ==> spec_valid_group((#[trigger] parts@[k])@),
            forall|k: int|
                from <= k < i ==> #[trigger] vals@[k - from] == spec_hex_val_of(parts@[k]@),
        decreases to - i,
    {
        match parse_group(parts[i].as_str()) {
            Some(v) => {
                vals.push(v);
            },
            None => {
                return None;
            },
        }
        i += 1;
    }
    Some(vals)
}

/// The segment at position `i` of the address with the given leading and
/// trailing groups.
fn seg_at(front: &Vec<u16>, back: &Vec<u16>, i: usize) -> (g: u16)
    requires
        i < 8,
        front@.len() + back@.len() <= 8,
    ensures
        g as int == spec_seg(
            front@.map_values(|v: u16| v as int),
            back@.map_values(|v: u16| v as int),
            i as int,
        ),
{
    if i < front.len() {
        front[i]
    } else if i + back.len() >= 8 {
        back[i - (8 - back.len())]
    } else {
        0
    }
}

/// Builds the address with the given leading and trailing groups, zeros
/// between.
fn v6_of_groups(front: &Vec<u16>, back: &Vec<u16>) -> (r: Ipv6Address)
    requires
        front@.len() + back@.len() <= 8,
    ensures
        forall|i: int|
            0 <= i < 8 ==> #[trigger] r.spec_segment(i) as int == spec_seg(
                front@.map_values(|v: u16| v as int),
                back@.map_values(|v: u16| v as int),
                i,
            ),
{
    Ipv6Address::new(
        seg_at(front, back, 0),
        seg_at(front, back, 1),
        seg_at(front, back, 2),
        seg_at(front, back, 3),
        seg_at(front, back, 4),
        seg_at(front, back, 5),
        seg_at(front, back, 6),
        seg_at(front, back, 7),
    )
}

/// Reads the colon form of an IPv6 address, full or compressed, if the
/// text is one.
#[verifier::loop_isolation(false)]
#[verifier::rlimit(100)]
#[verifier::spinoff_prover]
pub fn parse_v6(s: &str) -> (r: Option<Ipv6Address>)
    ensures
        r == spec_parse_v6(s@),
{
    let parts = split_chars(s, ':');
    let n = parts.len();
    let ghost ps = spec_split(s@, ':');
    proof {
        assert forall|from: int, to: int|
            #![trigger spec_no_empty(ps, from, to)]
            0 <= from && to <= n ==> (spec_no_empty(ps, from, to) == (forall|i: int|
                from <= i < to ==> (#[trigger] parts@[i])@.len() > 0)) by {
            if 0 <= from && to <= n {
                if spec_no_empty(ps, from, to) {
                    assert forall|i: int| from <= i < to implies (#[trigger] parts@[i])@.len()
                        > 0 by {
                        assert(ps[i].len() > 0);
                    }
                }
                if forall|i: int| from <= i < to ==> (#[trigger] parts@[i])@.len() > 0 {
                    assert forall|i: int| from <= i < to implies (#[trigger] ps[i]).len() > 0 by {
                        assert(parts@[i]@.len() > 0);
                    }
                }
            }
        }
    }

    if range_no_empty(&parts, 0, n) {
        // No double colon: exactly eight groups.
        if n != 8 {
            return None;
        }
        match parse_range(&parts, 0, 8) {
            Some(vals) => {
                let addr = v6_of_groups(&vals, &Vec::new());
                proof {
                    assert forall|i: int| 0 <= i < 8 implies #[trigger] vals@[i]
                        == spec_hex_val_of(ps[i]) by {
                        assert(vals@[i - 0] == spec_hex_val_of(parts@[i]@));
                        assert(parts@[i]@ == ps[i]);
                    }
                    assert forall|i: int| 0 <= i < 8 implies spec_valid_group(#[trigger] ps[i]) by {
                        assert(spec_valid_group(parts@[i]@));
                    }
                    lemma_v6_match(addr, ps, Seq::<Seq<char>>::empty(), vals@, Seq::<u16>::empty());
                    assert(spec_parse_v6(s@) == Some(spec_v6_of(ps, Seq::<Seq<char>>::empty())));
                }
                Some(addr)
            },
            None => {
                proof {
                    assert(!spec_groups_valid(ps, 0, 8)) by {
                        let i = choose|i: int|
                            0 <= i < 8 && !spec_valid_group((#[trigger] parts@[i])@);
                        assert(!spec_valid_group(ps[i]));
                    }
                }
                None
            },
        }
    } else {
        let j = first_empty_index(&parts);
        proof {
            assert forall|i: int| 0 <= i < j implies (#[trigger] ps[i]).len() > 0 by {
                assert(parts@[i]@.len() > 0);
            }
            if j < n {
                assert(ps[j as int].len() == 0) by {
                    assert(parts@[j as int]@.len() == 0);
                }
            } else {
                assert(spec_no_empty(ps, 0, n as int));
            }
            lemma_first_empty(ps, j as int);
        }
        if n == 3 && parts[0].as_str().is_empty() && parts[1].as_str().is_empty()
            && parts[2].as_str().is_empty() {
            // The double colon alone: the all-zero address.
            let addr = v6_of_groups(&Vec::new(), &Vec::new());
            proof {
                lemma_v6_match(
                    addr,
                    Seq::<Seq<char>>::empty(),
                    Seq::<Seq<char>>::empty(),
                    Seq::<u16>::empty(),
                    Seq::<u16>::empty(),
                );
            }
            Some(addr)
        } else if n >= 3 && parts[0].as_str().is_empty() && parts[1].as_str().is_empty()
            && range_no_empty(&parts, 2, n) {
            // A leading double colon: up to seven trailing groups.
            if n > 9 {
                return None;
            }
            match parse_range(&parts, 2, n) {
                Some(vals) => {
                    let addr = v6_of_groups(&Vec::new(), &vals);
                    proof {
                        let back = ps.subrange(2, n as int);
                        assert forall|i: int| 0 <= i < back.len() implies #[trigger] vals@[i]
                            == spec_hex_val_of(back[i]) by {
                            assert(vals@[(i + 2) - 2] == spec_hex_val_of(parts@[i + 2]@));
                            assert(parts@[i + 2]@ == ps[i + 2]);
                            assert(back[i] == ps[i + 2]);
                        }
                        assert forall|i: int| 2 <= i < n implies spec_valid_group(
                            #[trigger] ps[i],
                        ) by {
                            assert(spec_valid_group(parts@[i]@));
                        }
                        lemma_v6_match(
                            addr,
                            Seq::<Seq<char>>::empty(),
                            back,
                            Seq::<u16>::empty(),
                            vals@,
                        );
                    }
                    Some(addr)
                },
                None => {
                    proof {
                        assert(!spec_groups_valid(ps, 2, n as int)) by {
                            let i = choose|i: int|
                                2 <= i < n && !spec_valid_group((#[trigger] parts@[i])@);
                            assert(!spec_valid_group(ps[i]));
                        }
                    }
                    None
                },
            }
        } else if n >= 3 && parts[n - 1].as_str().is_empty() && parts[n - 2].as_str().is_empty()
            && range_no_empty(&parts, 0, n - 2) {
            // A trailing double colon: up to seven leading groups.
            if n > 9 {
                return None;
            }
            match parse_range(&parts, 0, n - 2) {
                Some(vals) => {
                    let addr = v6_of_groups(&vals, &Vec::new());
                    proof {
                        let front = ps.subrange(0, n as int - 2);
                        assert forall|i: int| 0 <= i < front.len() implies #[trigger] vals@[i]
                            == spec_hex_val_of(front[i]) by {
                            assert(vals@[i - 0] == spec_hex_val_of(parts@[i]@));
                            assert(parts@[i]@ == ps[i]);
                            assert(front[i] == ps[i]);
                        }
                        assert forall|i: int| 0 <= i < n - 2 implies spec_valid_group(
                            #[trigger] ps[i],
                        ) by {
                            assert(spec_valid_group(parts@[i]@));
                        }
                        lemma_v6_match(
                            addr,
                            front,
                            Seq::<Seq<char>>::empty(),
                            vals@,
                            Seq::<u16>::empty(),
                        );
                    }
                    Some(addr)
                },
                None => {
                    proof {
                        assert(!spec_groups_valid(ps, 0, n as int - 2)) by {
                            let i = choose|i: int|
                                0 <= i < n - 2 && !spec_valid_group((#[trigger] parts@[i])@);
                            assert(!spec_valid_group(ps[i]));
                        }
                    }
                    None
                },
            }
        } else {
            // A double colon between groups: one empty piece strictly
            // inside.
            if !(n <= 8 && 1 <= j && j + 2 <= n) {
                return None;
            }
            if !range_no_empty(&parts, j + 1, n) {
                return None;
            }
            let front = match parse_range(&parts, 0, j) {
                Some(front) => front,
                None => {
                    proof {
                        assert(!spec_groups_valid(ps, 0, j as int)) by {
                            let i = choose|i: int|
                                0 <= i < j && !spec_valid_group((#[trigger] parts@[i])@);
                            assert(!spec_valid_group(ps[i]));
                        }
                    }
                    return None;
                },
            };
            let back = match parse_range(&parts, j + 1, n) {
                Some(back) => back,
                None => {
                    proof {
                        assert(!spec_groups_valid(ps, j as int + 1, n as int)) by {
                            let i = choose|i: int|
                                j + 1 <= i < n && !spec_valid_group((#[trigger] parts@[i])@);
                            assert(!spec_valid_group(ps[i]));
                        }
                    }
                    return None;
                },
            };
            let addr = v6_of_groups(&front, &back);
            proof {
                let fparts = ps.subrange(0, j as int);
                let bparts = ps.subrange(j as int + 1, n as int);
                assert forall|i: int| 0 <= i < fparts.len() implies #[trigger] front@[i]
                    == spec_hex_val_of(fparts[i]) by {
                    assert(front@[i - 0] == spec_hex_val_of(parts@[i]@));
                    assert(parts@[i]@ == ps[i]);
                    assert(fparts[i] == ps[i]);
                }
                assert forall|i: int| 0 <= i < bparts.len() implies #[trigger] back@[i]
                    == spec_hex_val_of(bparts[i]) by {
                    assert(back@[(i + j as int + 1) - (j as int + 1)] == spec_hex_val_of(
                        parts@[i + j as int + 1]@,
                    ));
                    assert(parts@[i + j as int + 1]@ == ps[i + j as int + 1]);
                    assert(bparts[i] == ps[i + j as int + 1]);
                }
                assert forall|i: int| 0 <= i < j implies spec_valid_group(#[trigger] ps[i]) by {
                    assert(spec_valid_group(parts@[i]@));
                }
                assert forall|i: int| j + 1 <= i < n implies spec_valid_group(#[trigger] ps[i]) by {
                    assert(spec_valid_group(parts@[i]@));
                }
                lemma_v6_match(addr, fparts, bparts, front@, back@);
            }
            Some(addr)
        }
    }
}

/// An address whose segments follow `spec_seg` over the groups' values is
/// the address those pieces denote.
proof fn lemma_v6_match(
    addr: Ipv6Address,
    front: Seq<Seq<char>>,
    back: Seq<Seq<char>>,
    fvals: Seq<u16>,
    bvals: Seq<u16>,
)
    requires
        fvals.len() == front.len(),
        bvals.len() == back.len(),
        front.len() + back.len() <= 8,
        forall|i: int| 0 <= i < front.len() ==> #[trigger] fvals[i] == spec_hex_val_of(front[i]),
        forall|i: int| 0 <= i < back.len() ==> #[trigger] bvals[i] == spec_hex_val_of(back[i]),
        forall|i: int|
            0 <= i < 8 ==> #[trigger] addr.spec_segment(i) as int == spec_seg(
                fvals.map_values(|v: u16| v as int),
                bvals.map_values(|v: u16| v as int),
                i,
            ),
    ensures
        addr == spec_v6_of(front, back),
{
    let b = spec_v6_of(front, back);
    let fv = spec_group_vals(front);
    let bv = spec_group_vals(back);
    assert forall|i: int| 0 <= i < 8 implies #[trigger] addr.spec_segment(i) as int == spec_seg(
        fv,
        bv,
        i,
    ) by {
        assert(fvals.map_values(|v: u16| v as int).len() == fv.len());
        assert(bvals.map_values(|v: u16| v as int).len() == bv.len());
        if i < front.len() {
            assert(fvals.map_values(|v: u16| v as int)[i] == fvals[i] as int);
            assert(fv[i] == spec_hex_val_of(front[i]));
        } else if i >= 8 - back.len() {
            let k = i - (8 - back.len());
            assert(bvals.map_values(|v: u16| v as int)[k] == bvals[k] as int);
            assert(bv[k] == spec_hex_val_of(back[k]));
        }
    }
    assert(addr.s0 == b.s0 && addr.s1 == b.s1 && addr.s2 == b.s2 && addr.s3 == b.s3 && addr.s4
        == b.s4 && addr.s5 == b.s5 && addr.s6 == b.s6 && addr.s7 == b.s7) by {
        assert(addr.spec_segment(0) == addr.s0 && b.spec_segment(0) as int == spec_seg(fv, bv, 0));
        assert(addr.spec_segment(1) == addr.s1 && b.spec_segment(1) as int == spec_seg(fv, bv, 1));
        assert(addr.spec_segment(2) == addr.s2 && b.spec_segment(2) as int == spec_seg(fv, bv, 2));
        assert(addr.spec_segment(3) == addr.s3 && b.spec_segment(3) as int == spec_seg(fv, bv, 3));
        assert(addr.spec_segment(4) == addr.s4 && b.spec_segment(4) as int == spec_seg(fv, bv, 4));
        assert(addr.spec_segment(5) == addr.s5 && b.spec_segment(5) as int == spec_seg(fv, bv, 5));
        assert(addr.spec_segment(6) == addr.s6 && b.spec_segment(6) as int == spec_seg(fv, bv, 6));
        assert(addr.spec_segment(7) == addr.s7 && b.spec_segment(7) as int == spec_seg(fv, bv, 7));
    }
}

/// One lowercase hexadecimal digit as text.
fn digit_str(d: u8) -> (r: &'static str)
    requires
        d <= 15,
    ensures
        r@ == seq![spec_hex_char(d as int)],
{
    proof {
        reveal_strlit("0");
        reveal_strlit("1");
        reveal_strlit("2");
        reveal_strlit("3");
        reveal_strlit("4");
        reveal_strlit("5");
        reveal_strlit("6");
        reveal_strlit("7");
        reveal_strlit("8");
        reveal_strlit("9");
        reveal_strlit("a");
        reveal_strlit("b");
        reveal_strlit("c");
        reveal_strlit("d");
        reveal_strlit("e");
        reveal_strlit("f");
    }
    let r = match d {
        0 => "0",
        1 => "1",
        2 => "2",
        3 => "3",
        4 => "4",
        5 => "5",
        6 => "6",
        7 => "7",
        8 => "8",
        9 => "9",
        10 => "a",
        11 => "b",
        12 => "c",
        13 => "d",
        14 => "e",
        _ => "f",
    };
    proof {
        assert(r@ =~= seq![spec_hex_char(d as int)]);
    }
    r
}

/// Appends the decimal text of a number.
fn push_dec(out: &mut String, n: u16)
    ensures
        final(out)@ == old(out)@ + spec_dec_text(n as int),
    decreases n,
{
    proof {
        reveal_with_fuel(spec_dec_text, 2);
    }
    if n <= 9 {
        out.append(digit_str(n as u8));
        proof {
            assert(spec_hex_char(n as int) == spec_digit_char(n as int));
            assert(old(out)@ + seq![spec_digit_char(n as int)] =~= final(out)@);
        }
    } else {
        let ghost mid = out@;
        push_dec(out, n / 10);
        let d = n % 10;
        out.append(digit_str(d as u8));
        proof {
            assert(spec_hex_char(d as int) == spec_digit_char(d as int));
            assert(old(out)@ + spec_dec_text(n as int) =~= (old(out)@ + spec_dec_text(
                n as int / 10,
            )) + seq![spec_digit_char(n as int % 10)]);
        }
    }
}

/// Appends the lowercase hexadecimal text of a number.
fn push_hex(out: &mut String, n: u16)
    ensures
        final(out)@ == old(out)@ + spec_hex_text(n as int),
    decreases n,
{
    proof {
        reveal_with_fuel(spec_hex_text, 2);
    }
    if n <= 15 {
        out.append(digit_str(n as u8));
        proof {
            assert(old(out)@ + seq![spec_hex_char(n as int)] =~= final(out)@);
        }
    } else {
        push_hex(out, n / 16);
        let d = n % 16;
        out.append(digit_str(d as u8));
        proof {
            assert(old(out)@ + spec_hex_text(n as int) =~= (old(out)@ + spec_hex_text(
                n as int / 16,
            )) + seq![spec_hex_char(n as int % 16)]);
        }
    }
}

/// Writes the canonical dotted form of an IPv4 address.
pub fn v4_string(a: &Ipv4Address) -> (r: String)
    ensures
        r@ == spec_v4_text(*a),
{
    proof {
        reveal_strlit(".");
    }
    let mut out = String::new();
    push_dec(&mut out, a.o0 as u16);
    out.append(".");
    push_dec(&mut out, a.o1 as u16);
    out.append(".");
    push_dec(&mut out, a.o2 as u16);
    out.append(".");
    push_dec(&mut out, a.o3 as u16);
    proof {
        let parts = spec_v4_parts(*a);
        assert(parts.take(1).drop_last() =~= parts.take(0));
        assert(parts.take(2).drop_last() =~= parts.take(1));
        assert(parts.take(3).drop_last() =~= parts.take(2));
        assert(parts.take(4).drop_last() =~= parts.take(3));
        assert(parts.take(1) =~= seq![parts[0]]);
        assert(spec_join(parts.take(1), '.') == parts[0]);
        assert(spec_join(parts.take(2), '.') == spec_join(parts.take(1), '.').push('.')
            + parts[1]);
        assert(spec_join(parts.take(3), '.') == spec_join(parts.take(2), '.').push('.')
            + parts[2]);
        assert(spec_join(parts.take(4), '.') == spec_join(parts.take(3), '.').push('.')
            + parts[3]);
        assert(parts.take(4) =~= parts);
        assert(out@ =~= spec_join(parts, '.'));
    }
    out
}

/// Writes the canonical full colon form of an IPv6 address.
#[verifier::loop_isolation(false)]
pub fn v6_string(a: &Ipv6Address) -> (r: String)
    ensures
        r@ == spec_v6_text(*a),
{
    proof {
        reveal_strlit(":");
    }
    let mut out = String::new();
    let mut k: usize = 0;
    while k < 8
        invariant
            k <= 8,
            out@ == spec_join(spec_v6_parts(*a).take(k as int), ':'),
        decreases 8 - k,
    {
        let ghost parts = spec_v6_parts(*a);
        if k > 0 {
            out.append(":");
        }
        push_hex(&mut out, a.segment(k));
        proof {
            assert(parts.take(k as int + 1).drop_last() =~= parts.take(k as int));
            assert(parts.take(k as int + 1).last() == parts[k as int]);
            if k == 0 {
                assert(parts.take(1) =~= seq![parts[0]]);
                assert(spec_join(parts.take(1), ':') == parts[0]);
                assert(out@ =~= parts[0]);
            } else {
                assert(spec_join(parts.take(k as int + 1), ':') == spec_join(
                    parts.take(k as int),
                    ':',
                ).push(':') + parts[k as int]);
                assert(out@ =~= spec_join(parts.take(k as int), ':').push(':')
                    + parts[k as int]);
            }
        }
        k += 1;
    }
    proof {
        assert(spec_v6_parts(*a).take(8) =~= spec_v6_parts(*a));
    }
    out
}

impl DnsContent {
    /// The characters this content serializes to: an address in its
    /// canonical text, opaque content verbatim.
    pub open spec fn spec_text(self) -> Seq<char> {
        match self {
            DnsContent::A(a) => spec_v4_text(a),
            DnsContent::AAAA(b) => spec_v6_text(b),
            DnsContent::Other(s) => s@,
        }
    }

    /// Serializes the content to its textual form.
    pub fn to_text(&self) -> (r: String)
        ensures
            r@ == self.spec_text(),
    {
        match self {
            DnsContent::A(a) => v4_string(a),
            DnsContent::AAAA(b) => v6_string(b),
            DnsContent::Other(s) => s.clone(),
        }
    }

    /// Parses content from text: an IPv4 address if the text reads as
    /// one, else an IPv6 address if it reads as one, else the text kept
    /// verbatim as opaque content.
    pub fn from_text(s: &str) -> (r: DnsContent)
        ensures
            match spec_parse_v4(s@) {
                Some(a) => r == DnsContent::A(a),
                None => match spec_parse_v6(s@) {
                    Some(b) => r == DnsContent::AAAA(b),
                    None => r matches DnsContent::Other(o) && o@ == s@,
                },
            },
    {
        if let Some(a) = parse_v4(s) {
            return DnsContent::A(a);
        }
        if let Some(b) = parse_v6(s) {
            return DnsContent::AAAA(b);
        }
        DnsContent::Other(s.to_owned())
    }

    /// Content that came from text — an address, or opaque text that
    /// reads as no address — parses back from its serialized form to an
    /// equal value.
    pub proof fn lemma_text_roundtrip(self)
        requires
            self matches DnsContent::Other(o) ==> spec_parse_v4(o@) is None && spec_parse_v6(
                o@,
            ) is None,
        ensures
            match self {
                DnsContent::A(a) => spec_parse_v4(self.spec_text()) == Some(a),
                DnsContent::AAAA(b) => spec_parse_v4(self.spec_text()) is None && spec_parse_v6(
                    self.spec_text(),
                ) == Some(b),
                DnsContent::Other(o) => spec_parse_v4(self.spec_text()) is None && spec_parse_v6(
                    self.spec_text(),
                ) is None,
            },
    {
        match self {
            DnsContent::A(a) => {
                lemma_parse_v4_of_text(a);
            },
            DnsContent::AAAA(b) => {
                lemma_parse_v6_of_text(b);
                lemma_v6_text_not_v4(b);
            },
            DnsContent::Other(_) => {},
        }
    }
}


} // verus!

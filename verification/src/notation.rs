//! What numbers, ranks and texts say, in terms of what they stand for.

use crate::names::text_before;
use crate::num::{
    capped, capped_rate, digit, digits, fixed, high_part, known, known_micro, known_signed, left,
    low_digits, rate, right, rounded, signed_digits, signed_fixed,
};
use crate::order::{key_of, ranking, ranking_is_stable, Key};
use crate::text::{
    after_prefix, begins, ends, first_from, first_from_is_least, holds, is_control, is_space,
    joined, lower, occurs_at, parts, pieces, pieces_not_empty, printable, trim_back, trim_front,
    trimmed, upper, without_trailing,
};
use vstd::prelude::*;

verus! {

/// The number that a run of decimal digits writes.
pub open spec fn reading(s: Seq<char>) -> nat
    decreases s.len(),
{
    if s.len() == 0 {
        0
    } else {
        reading(s.drop_last()) * 10 + ((s.last() as nat) - 48) as nat
    }
}

/// Nothing but decimal digits.
pub open spec fn decimal_digits(s: Seq<char>) -> bool {
    forall|i: int| 0 <= i < s.len() ==> '0' <= (#[trigger] s[i]) <= '9'
}

/// `s` writes `n` with its last `places` digits behind a point, and at least
/// one digit before it.
pub open spec fn shows(s: Seq<char>, n: nat, places: nat) -> bool {
    if places == 0 {
        s.len() > 0 && decimal_digits(s) && reading(s) == n
    } else {
        let at = s.len() - places - 1;
        &&& at > 0
        &&& s[at] == '.'
        &&& decimal_digits(s.take(at))
        &&& decimal_digits(s.skip(at + 1))
        &&& reading(s.take(at) + s.skip(at + 1)) == n
    }
}

/// `n` times `unit` lies no further than half a unit from `value`.
pub open spec fn nearest(n: nat, value: int, unit: int) -> bool {
    -unit <= 2 * (n * unit - value) <= unit
}

/// `s` writes `value / unit`, rounded to the nearest, with `places` decimals
/// of which the last counts units.
pub open spec fn writes(s: Seq<char>, value: int, unit: int, places: nat) -> bool {
    exists|n: nat| #[trigger] shows(s, n, places) && nearest(n, value, unit)
}

proof fn digit_is_decimal(d: nat)
    requires
        d < 10,
    ensures
        '0' <= digit(d) <= '9',
        (digit(d) as nat) - 48 == d,
{
}

/// The digits of a number write that number, without needless zeros.
pub proof fn digits_write_the_number(n: nat)
    ensures
        digits(n).len() > 0,
        decimal_digits(digits(n)),
        reading(digits(n)) == n,
        n > 0 ==> digits(n)[0] != '0',
        n < 10 ==> digits(n).len() == 1,
    decreases n,
{
    if n < 10 {
        digit_is_decimal(n);
        let s = seq![digit(n)];
        assert(s.drop_last() =~= seq![]);
        assert(reading(s.drop_last()) == 0);
    } else {
        digits_write_the_number(n / 10);
        digit_is_decimal(n % 10);
        let front = digits(n / 10);
        assert(digits(n).drop_last() =~= front);
        assert(digits(n)[0] == front[0]);
    }
}

/// A negative number is written with a minus sign, any other without.
pub proof fn signs_are_written(n: int)
    ensures
        n >= 0 ==> signed_digits(n) == digits(n as nat),
        n < 0 ==> signed_digits(n) == seq!['-'] + digits((-n) as nat),
{
}

proof fn low_digits_are_decimal(n: nat, width: nat)
    ensures
        low_digits(n, width).len() == width,
        decimal_digits(low_digits(n, width)),
    decreases width,
{
    if width > 0 {
        low_digits_are_decimal(n / 10, (width - 1) as nat);
        digit_is_decimal(n % 10);
    }
}

proof fn parts_write_the_number(n: nat, width: nat)
    ensures
        reading(digits(high_part(n, width)) + low_digits(n, width)) == n,
    decreases width,
{
    if width == 0 {
        digits_write_the_number(n);
        assert(digits(n) + low_digits(n, 0) =~= digits(n));
    } else {
        parts_write_the_number(n / 10, (width - 1) as nat);
        digit_is_decimal(n % 10);
        let s = digits(high_part(n, width)) + low_digits(n, width);
        assert(s.drop_last() =~= digits(high_part(n / 10, (width - 1) as nat)) + low_digits(
            n / 10,
            (width - 1) as nat,
        ));
        assert(s.last() == digit(n % 10));
    }
}

proof fn rounded_is_nearest(value: nat, divisor: nat)
    requires
        divisor > 0,
    ensures
        nearest(rounded(value, divisor), value as int, divisor as int),
{
    let q = value / divisor;
    let r = value % divisor;
    vstd::arithmetic::div_mod::lemma_fundamental_div_mod(value as int, divisor as int);
    assert(q * divisor == divisor * q) by (nonlinear_arith);
    assert((q + 1) * divisor == q * divisor + divisor) by (nonlinear_arith);
    assert(0 <= r < divisor);
}

/// A number with decimals is the nearest that these decimals can write.
pub proof fn decimals_write_the_nearest(value: nat, divisor: nat, places: nat)
    requires
        divisor > 0,
    ensures
        writes(fixed(value, divisor, places), value as int, divisor as int, places),
{
    let n = rounded(value, divisor);
    let s = fixed(value, divisor, places);
    rounded_is_nearest(value, divisor);
    if places == 0 {
        digits_write_the_number(n);
    } else {
        let head = digits(high_part(n, places));
        let tail = low_digits(n, places);
        digits_write_the_number(high_part(n, places));
        low_digits_are_decimal(n, places);
        parts_write_the_number(n, places);
        let at = s.len() - places - 1;
        assert(at == head.len());
        assert(s.take(at) =~= head);
        assert(s.skip(at + 1) =~= tail);
        assert(s[at] == '.');
    }
    assert(shows(s, n, places));
}

/// A tie goes to the even neighbour.
pub proof fn ties_go_to_the_even(value: nat, divisor: nat)
    requires
        divisor > 0,
        2 * (value % divisor) == divisor,
    ensures
        rounded(value, divisor) % 2 == 0,
        shows(fixed(value, divisor, 0), rounded(value, divisor), 0),
{
    digits_write_the_number(rounded(value, divisor));
}

/// A number that may be negative is written as its size, behind a minus sign
/// if it is negative.
pub proof fn signed_decimals_write_the_nearest(value: int, divisor: nat, places: nat)
    requires
        divisor > 0,
    ensures
        value >= 0 ==> writes(signed_fixed(value, divisor, places), value, divisor as int, places),
        value < 0 ==> signed_fixed(value, divisor, places).len() > 0 && signed_fixed(
            value,
            divisor,
            places,
        )[0] == '-' && writes(
            signed_fixed(value, divisor, places).skip(1),
            -value,
            divisor as int,
            places,
        ),
{
    if value >= 0 {
        decimals_write_the_nearest(value as nat, divisor, places);
    } else {
        decimals_write_the_nearest((-value) as nat, divisor, places);
        assert(signed_fixed(value, divisor, places).skip(1) =~= fixed(
            (-value) as nat,
            divisor,
            places,
        ));
    }
}

/// An unknown number is a dash, and a known one has one decimal: millionths of
/// a unit, or a tenth of a unit of the given size.
pub proof fn unknown_numbers_are_dashes(v: u128, unit: nat, m: u64, i: i64)
    requires
        unit > 0,
    ensures
        known(None, unit) == "—"@,
        known_micro(None) == "—"@,
        known_signed(None) == "—"@,
        writes(known(Some(v), unit), v as int, unit as int, 1),
        writes(known_micro(Some(m)), m as int, 100_000, 1),
        i >= 0 ==> writes(known_signed(Some(i)), i as int, 100_000, 1),
        i < 0 ==> known_signed(Some(i)).len() > 0 && known_signed(Some(i))[0] == '-' && writes(
            known_signed(Some(i)).skip(1),
            -i as int,
            100_000,
            1,
        ),
{
    decimals_write_the_nearest(v as nat, unit, 1);
    decimals_write_the_nearest(m as nat, 100_000, 1);
    signed_decimals_write_the_nearest(i as int, 100_000, 1);
}

/// A field is as wide as asked, or as its text, and holds the text at its end
/// or at its start with nothing but spaces beside it.
pub proof fn fields_hold_their_texts(s: Seq<char>, width: int)
    ensures
        ({
            let r = right(s, width);
            let l = left(s, width);
            let n = if s.len() < width { width } else { s.len() as int };
            &&& r.len() == n
            &&& l.len() == n
            &&& r.skip(n - s.len()) == s
            &&& l.take(s.len() as int) == s
            &&& forall|i: int| 0 <= i < n - s.len() ==> (#[trigger] r[i]) == ' '
            &&& forall|i: int| s.len() <= i < n ==> (#[trigger] l[i]) == ' '
        }),
{
    let n = if s.len() < width { width } else { s.len() as int };
    assert(right(s, width).skip(n - s.len()) =~= s);
    assert(left(s, width).take(s.len() as int) =~= s);
}

/// A total is the true sum until it reaches the largest value.
pub proof fn caps_are_limits(x: int)
    requires
        x >= 0,
    ensures
        x <= u128::MAX ==> capped(x) == x,
        x > u128::MAX ==> capped(x) == u128::MAX,
        x <= u64::MAX ==> capped_rate(x) == x,
        x > u64::MAX ==> capped_rate(x) == u64::MAX,
{
}

/// A rate times its interval is the growth, to less than one unit of the rate.
pub proof fn a_rate_times_its_interval_is_the_growth(growth: int, scale: int, interval: int)
    requires
        growth >= 0,
        scale >= 0,
        interval > 0,
    ensures
        ({
            let r = rate(growth, scale, interval);
            &&& r * interval <= growth * scale
            &&& r < u64::MAX ==> growth * scale < (r + 1) * interval
        }),
{
    let p = growth * scale;
    assert(p >= 0) by (nonlinear_arith)
        requires
            growth >= 0,
            scale >= 0,
            p == growth * scale,
    ;
    let q = p / interval;
    vstd::arithmetic::div_mod::lemma_fundamental_div_mod(p, interval);
    assert(q * interval <= p < (q + 1) * interval && q >= 0) by (nonlinear_arith)
        requires
            interval > 0,
            p >= 0,
            q == p / interval,
    ;
    let r = rate(growth, scale, interval);
    if q > u64::MAX {
        assert(r * interval <= q * interval) by (nonlinear_arith)
            requires
                r <= q,
                interval > 0,
        ;
    }
}

/// A ranking holds every row once, the greater key before the smaller and equal
/// keys in their own order.
pub proof fn ranking_is_descending(keys: Seq<Key>)
    requires
        keys.len() <= usize::MAX,
    ensures
        ranking(keys).len() == keys.len(),
        ranking(keys).no_duplicates(),
        forall|p: int| 0 <= p < keys.len() ==> (#[trigger] ranking(keys)[p]) < keys.len(),
        forall|p: int, q: int|
            #![trigger ranking(keys)[p], ranking(keys)[q]]
            0 <= p < q < keys.len() ==> {
                let a = keys[ranking(keys)[p] as int];
                let b = keys[ranking(keys)[q] as int];
                a.0 > b.0 || (a.0 == b.0 && a.1 > b.1) || (a.0 == b.0 && a.1 == b.1 && ranking(
                    keys,
                )[p] < ranking(keys)[q])
            },
{
    ranking_is_stable(keys);
}

/// A missing reading ranks below every reading, and readings rank by size.
pub proof fn missing_readings_rank_last(a: u64, b: u64)
    ensures
        key_of(None) < key_of(Some(a)),
        a < b <==> key_of(Some(a)) < key_of(Some(b)),
{
}

/// A text stands before another where, behind what both begin with, it ends or
/// goes on with the smaller character.
pub proof fn texts_are_ordered_like_words(s: Seq<char>, a: Seq<char>, b: Seq<char>)
    requires
        a.len() > 0 && b.len() > 0 ==> a[0] != b[0],
    ensures
        text_before(s + a, s + b) <==> b.len() > 0 && (a.len() == 0 || a[0] < b[0]),
    decreases s.len(),
{
    if s.len() == 0 {
        assert(s + a =~= a);
        assert(s + b =~= b);
    } else {
        texts_are_ordered_like_words(s.skip(1), a, b);
        assert((s + a).skip(1) =~= s.skip(1) + a);
        assert((s + b).skip(1) =~= s.skip(1) + b);
    }
}

/// A text begins with, ends with or holds another where it is put together so.
pub proof fn searches_find_what_was_put_there(a: Seq<char>, p: Seq<char>, b: Seq<char>)
    ensures
        begins(p + b, p),
        ends(a + p, p),
        holds(a + p + b, p),
        after_prefix(p + b, p) == Some(b),
{
    assert((p + b).subrange(0, p.len() as int) =~= p);
    assert((a + p).subrange(a.len() as int, (a + p).len() as int) =~= p);
    let s = a + p + b;
    assert(s.subrange(a.len() as int, (a.len() + p.len()) as int) =~= p);
    assert(occurs_at(s, p, a.len() as int));
    assert((p + b).skip(p.len() as int) =~= b);
}

/// What is found stands there.
pub proof fn searches_find_only_what_is_there(s: Seq<char>, p: Seq<char>)
    ensures
        begins(s, p) ==> s.len() >= p.len() && s.take(p.len() as int) == p,
        ends(s, p) ==> s.len() >= p.len() && s.skip(s.len() - p.len()) == p,
        holds(s, p) ==> exists|i: int| 0 <= i && i + p.len() <= s.len() && #[trigger] s.subrange(
            i,
            i + p.len(),
        ) == p,
        after_prefix(s, p) is Some ==> s == p + after_prefix(s, p)->0,
        after_prefix(s, p) is None ==> !begins(s, p),
{
    if begins(s, p) {
        assert(s.take(p.len() as int) =~= p);
        assert(s =~= p + s.skip(p.len() as int));
    }
    if ends(s, p) {
        assert(s.skip(s.len() - p.len()) =~= p);
    }
    if holds(s, p) {
        let i = choose|i: int| occurs_at(s, p, i);
        assert(s.subrange(i, i + p.len()) == p);
    }
}

/// A text is split at the first separator: what stands before it holds none.
pub proof fn splits_are_at_the_first(s: Seq<char>, sep: Seq<char>)
    ensures
        match parts(s, sep) {
            Some((a, b)) => s == a + sep + b && forall|j: int|
                0 <= j < a.len() && j + sep.len() <= s.len() ==> #[trigger] s.subrange(
                    j,
                    j + sep.len(),
                ) != sep,
            None => forall|j: int|
                0 <= j && j + sep.len() <= s.len() ==> #[trigger] s.subrange(j, j + sep.len())
                    != sep,
        },
{
    first_from_is_least(s, sep, 0);
    match first_from(s, sep, 0) {
        Some(i) => {
            assert(occurs_at(s, sep, i));
            let (a, b) = (s.take(i), s.skip(i + sep.len()));
            assert(s =~= a + sep + b) by {
                assert(s.subrange(i, i + sep.len()) == sep);
                assert forall|k: int| 0 <= k < s.len() implies s[k] == (a + sep + b)[k] by {
                    if i <= k < i + sep.len() {
                        assert(s.subrange(i, i + sep.len())[k - i] == s[k]);
                    }
                }
            }
            assert forall|j: int| 0 <= j < a.len() && j + sep.len() <= s.len() implies
                #[trigger] s.subrange(j, j + sep.len()) != sep by {
                assert(!occurs_at(s, sep, j));
            }
        },
        None => {
            assert forall|j: int| 0 <= j && j + sep.len() <= s.len() implies #[trigger] s.subrange(
                j,
                j + sep.len(),
            ) != sep by {
                assert(!occurs_at(s, sep, j));
            }
        },
    }
}

/// The pieces put together again with the separator between them are the text.
pub proof fn pieces_are_the_text(s: Seq<char>, c: char)
    ensures
        joined(pieces(s, c), seq![c]) == s,
        forall|i: int, k: int|
            0 <= i < pieces(s, c).len() && 0 <= k < pieces(s, c)[i].len() ==> #[trigger] pieces(
                s,
                c,
            )[i][k] != c,
    decreases s.len(),
{
    if s.len() == 0 {
        assert(joined(pieces(s, c), seq![c]) =~= s);
    } else {
        let front = s.drop_last();
        let rest = pieces(front, c);
        pieces_are_the_text(front, c);
        pieces_not_empty(front, c);
        if s.last() == c {
            let all = rest.push(Seq::empty());
            assert(all.drop_last() =~= rest);
            assert(joined(all, seq![c]) =~= s);
        } else {
            let all = rest.drop_last().push(rest.last().push(s.last()));
            assert(all.drop_last() =~= rest.drop_last());
            if rest.len() == 1 {
                assert(joined(rest, seq![c]) == rest[0]);
                assert(all.len() == 1);
                assert(all[0] == front.push(s.last()));
                assert(joined(all, seq![c]) == all[0]);
                assert(front.push(s.last()) =~= s);
            } else {
                assert(joined(rest, seq![c]) == joined(rest.drop_last(), seq![c]) + seq![c]
                    + rest.last());
                assert(all.len() == rest.len());
                assert(all.last() == rest.last().push(s.last()));
                assert(joined(all, seq![c]) == joined(rest.drop_last(), seq![c]) + seq![c]
                    + all.last());
                assert(joined(all, seq![c]) =~= joined(rest, seq![c]).push(s.last()));
                assert(front.push(s.last()) =~= s);
            }
            assert forall|i: int, k: int|
                0 <= i < all.len() && 0 <= k < all[i].len() implies #[trigger] all[i][k] != c by {
                if i < rest.len() - 1 {
                    assert(all[i] == rest[i]);
                    assert(rest[i][k] != c);
                } else if k < rest.last().len() {
                    assert(rest[rest.len() - 1][k] != c);
                }
            }
        }
    }
}

/// Trimming takes white space off both ends and nothing else.
pub proof fn trimming_takes_only_white_space(s: Seq<char>)
    ensures
        exists|a: int, b: int|
            0 <= a <= b <= s.len() && trimmed(s) == #[trigger] s.subrange(a, b) && (forall|i: int|
                0 <= i < a || b <= i < s.len() ==> is_space(#[trigger] s[i])),
        trimmed(s).len() > 0 ==> !is_space(trimmed(s)[0]) && !is_space(trimmed(s).last()),
{
    let a = front_spaces(s);
    let f = trim_front(s);
    let b = back_spaces(f);
    assert(trimmed(s) =~= s.subrange(a, a + b));
    assert forall|i: int| 0 <= i < a || a + b <= i < s.len() implies is_space(
        #[trigger] s[i],
    ) by {
        if i >= a + b {
            assert(f[i - a] == s[i]);
        }
    }
    if trimmed(s).len() > 0 {
        assert(trimmed(s)[0] == f[0]);
    }
}

proof fn front_spaces(s: Seq<char>) -> (a: int)
    ensures
        0 <= a <= s.len(),
        trim_front(s) == s.skip(a),
        forall|i: int| 0 <= i < a ==> is_space(#[trigger] s[i]),
        a < s.len() ==> !is_space(s[a]),
    decreases s.len(),
{
    if s.len() > 0 && is_space(s[0]) {
        let a = front_spaces(s.skip(1));
        assert(s.skip(1).skip(a) =~= s.skip(a + 1));
        assert forall|i: int| 0 <= i < a + 1 implies is_space(#[trigger] s[i]) by {
            if i > 0 {
                assert(s.skip(1)[i - 1] == s[i]);
            }
        }
        a + 1
    } else {
        assert(s.skip(0) =~= s);
        0
    }
}

proof fn back_spaces(s: Seq<char>) -> (b: int)
    ensures
        0 <= b <= s.len(),
        trim_back(s) == s.take(b),
        forall|i: int| b <= i < s.len() ==> is_space(#[trigger] s[i]),
        b > 0 ==> !is_space(s[b - 1]),
    decreases s.len(),
{
    if s.len() > 0 && is_space(s.last()) {
        let b = back_spaces(s.drop_last());
        assert(s.drop_last().take(b) =~= s.take(b));
        assert forall|i: int| b <= i < s.len() implies is_space(#[trigger] s[i]) by {
            if i < s.len() - 1 {
                assert(s.drop_last()[i] == s[i]);
            }
        }
        b
    } else {
        assert(s.take(s.len() as int) =~= s);
        s.len() as int
    }
}

/// White space is what Unicode calls so, and a control character is one below
/// the space, or from delete up to the end of the second control block.
pub proof fn classes_of_characters(c: char)
    ensures
        is_space(c) <==> ('\t' <= c <= '\r' || c == ' ' || c == '\u{85}' || c == '\u{a0}' || c
            == '\u{1680}' || '\u{2000}' <= c <= '\u{200a}' || c == '\u{2028}' || c == '\u{2029}'
            || c == '\u{202f}' || c == '\u{205f}' || c == '\u{3000}'),
        is_control(c) <==> (c < ' ' || '\u{7f}' <= c <= '\u{9f}'),
{
}

/// Cleaning leaves every character that is no control character, in order, and
/// takes away every other.
pub proof fn cleaning_takes_control_characters(a: Seq<char>, c: char)
    ensures
        printable(seq![]) == Seq::<char>::empty(),
        !(c < ' ' || '\u{7f}' <= c <= '\u{9f}') ==> printable(a.push(c)) == printable(a).push(c),
        c < ' ' || '\u{7f}' <= c <= '\u{9f}' ==> printable(a.push(c)) == printable(a),
{
    reveal(Seq::filter);
    assert(a.push(c).drop_last() =~= a);
}

/// Capitals change the small letters and nothing else, and back.
pub proof fn capitals_change_letters_only(s: Seq<char>)
    ensures
        upper(s).len() == s.len(),
        lower(s).len() == s.len(),
        forall|i: int|
            0 <= i < s.len() ==> #[trigger] upper(s)[i] == if 'a' <= s[i] <= 'z' {
                ((s[i] as u8) - 32) as u8 as char
            } else {
                s[i]
            },
        forall|i: int|
            0 <= i < s.len() ==> #[trigger] lower(s)[i] == if 'A' <= s[i] <= 'Z' {
                ((s[i] as u8) + 32) as u8 as char
            } else {
                s[i]
            },
{
}

/// Joined texts stand in order with the separator between each and the next.
pub proof fn joining_adds_a_text(v: Seq<Seq<char>>, x: Seq<char>, sep: Seq<char>)
    ensures
        joined(seq![], sep) == Seq::<char>::empty(),
        v.len() == 0 ==> joined(v.push(x), sep) == x,
        v.len() > 0 ==> joined(v.push(x), sep) == joined(v, sep) + sep + x,
{
    assert(v.push(x).drop_last() =~= v);
}

/// Taking a character off the end takes every one of them and no other.
pub proof fn trailing_characters_go(s: Seq<char>, c: char, n: nat)
    requires
        s.len() > 0 ==> s.last() != c,
    ensures
        without_trailing(s + Seq::new(n, |i: int| c), c) == s,
    decreases n,
{
    let t = s + Seq::new(n, |i: int| c);
    if n == 0 {
        assert(t =~= s);
    } else {
        trailing_characters_go(s, c, (n - 1) as nat);
        assert(t.drop_last() =~= s + Seq::new((n - 1) as nat, |i: int| c));
    }
}

} // verus!

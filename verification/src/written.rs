//! What is read in the texts that other programs write, and in recordings.

use crate::docker::{
    containers_in, filled_lines, joined as containers_joined, json_reading, meta_in, objects,
    stat_in, ContainerView, Members,
};
use crate::evidence::pieces_of_a_join;
use crate::guests::a_split_is_what_was_joined;
use crate::notation::{
    decimal_digits, pieces_are_the_text, reading, searches_find_only_what_is_there,
    searches_find_what_was_put_there, trailing_characters_go,
};
use crate::host::value_text;
use crate::names::{is_ascending, text_before};
use crate::num::digits;
use crate::percent::{
    all_digits, exponent, is_digit, leading, mantissa, nonzero, number, percent_of, unsigned,
};
use crate::record::{
    accepted, compressed, names_recording, recording_in, records_in, recordings, EndingView, Record,
    StreamEnd,
};
use crate::samplers::agx::{is_blank, polled, GpuProperties};
use crate::samplers::procname::name_by_path;
use crate::text::{
    first_from, first_from_is_least, is_space, lines_of, opt_text, lower, occurs_at, parts, pieces,
    pieces_not_empty, trim_back, trim_front, trimmed, without_trailing,
};
use crate::types::GpuFrame;
use crate::vm::{path_of, same_machine, same_place, IdentityView};
use vstd::arithmetic::power::pow;
use vstd::prelude::*;
use vstd::utf8::{decode_utf8, valid_utf8};

verus! {

proof fn first_digits_are_read(d: Seq<char>, n: int)
    requires
        0 <= n <= d.len(),
    ensures
        leading(d, n) == reading(d.take(n)),
    decreases n,
{
    if n > 0 {
        first_digits_are_read(d, n - 1);
        assert(d.take(n).drop_last() =~= d.take(n - 1));
    }
}

proof fn fewer_digits_round_down(d: Seq<char>, n: int)
    requires
        decimal_digits(d),
        0 <= n <= d.len(),
    ensures
        pow(10, (d.len() - n) as nat) > 0,
        reading(d.take(n)) * pow(10, (d.len() - n) as nat) <= reading(d),
        reading(d) < (reading(d.take(n)) + 1) * pow(10, (d.len() - n) as nat),
    decreases d.len() - n,
{
    reveal(pow);
    if n == d.len() {
        assert(d.take(n) =~= d);
    } else {
        fewer_digits_round_down(d, n + 1);
        assert(d.take(n + 1).drop_last() =~= d.take(n));
        assert('0' <= d[n] <= '9');
        let p = pow(10, (d.len() - n - 1) as nat);
        let (x, y) = (reading(d.take(n)) as int, reading(d.take(n + 1)) as int);
        assert(pow(10, (d.len() - n) as nat) == 10 * p);
        assert(x * 10 <= y < x * 10 + 10);
        assert(x * (10 * p) <= y * p) by (nonlinear_arith)
            requires
                x * 10 <= y,
                p > 0,
        ;
        assert((y + 1) * p <= (x + 1) * (10 * p)) by (nonlinear_arith)
            requires
                y + 1 <= x * 10 + 10,
                p > 0,
        ;
    }
}

proof fn more_digits_are_zeros(d: Seq<char>, n: int)
    requires
        n >= d.len(),
    ensures
        leading(d, n) == reading(d) * pow(10, (n - d.len()) as nat),
    decreases n,
{
    reveal(pow);
    if n == d.len() {
        first_digits_are_read(d, n);
        assert(d.take(n) =~= d);
        assert(reading(d) * 1 == reading(d));
    } else {
        more_digits_are_zeros(d, n - 1);
        let p = pow(10, (n - 1 - d.len()) as nat);
        let r = reading(d) as int;
        assert(r * p * 10 == r * (10 * p)) by (nonlinear_arith);
    }
}

proof fn powers_add(a: nat, b: nat)
    ensures
        pow(10, a) * pow(10, b) == pow(10, a + b),
{
    vstd::arithmetic::power::lemma_pow_adds(10, a, b);
}

/// `v` is the whole part of `n / 10^places` times ten to the sixth.
pub open spec fn is_millionths(v: int, n: int, places: nat) -> bool {
    v * pow(10, places) <= n * 1_000_000 < (v + 1) * pow(10, places)
}

proof fn leading_counts_millionths(d: Seq<char>, places: nat)
    requires
        decimal_digits(d),
        places <= d.len(),
    ensures
        is_millionths(leading(d, d.len() - places + 6) as int, reading(d) as int, places),
{
    let n = d.len() - places + 6;
    let v = leading(d, n) as int;
    let r = reading(d) as int;
    assert(pow(10, 6) == 1_000_000) by {
        reveal_with_fuel(pow, 7);
    }
    vstd::arithmetic::power::lemma_pow_positive(10, places);
    if places <= 6 {
        more_digits_are_zeros(d, n);
        powers_add((6 - places) as nat, places);
        let (p, q) = (pow(10, (6 - places) as nat), pow(10, places));
        assert(r * p * q == r * (p * q)) by (nonlinear_arith);
        assert((v + 1) * q == v * q + q) by (nonlinear_arith);
    } else {
        first_digits_are_read(d, n);
        fewer_digits_round_down(d, n);
        let more = (places - 6) as nat;
        powers_add(more, 6);
        let p = pow(10, more);
        assert(v * p <= r < (v + 1) * p);
        assert(pow(10, places) == p * 1_000_000);
        assert(v * (p * 1_000_000) <= r * 1_000_000) by (nonlinear_arith)
            requires
                v * p <= r,
        ;
        assert(r * 1_000_000 < (v + 1) * (p * 1_000_000)) by (nonlinear_arith)
            requires
                r < (v + 1) * p,
        ;
    }
}

/// A number with a point: digits, of which `b` stand behind it.
proof fn plain_numbers_are_read(a: Seq<char>, b: Seq<char>)
    requires
        decimal_digits(a),
        decimal_digits(b),
        a.len() + b.len() > 0,
    ensures
        number(a + "."@ + b) == Some((false, a + b, a.len() as int)),
        a.len() > 0 ==> number(a) == Some((false, a, a.len() as int)),
{
    reveal_strlit(".");
    reveal_strlit("e");
    let t = a + "."@ + b;
    assert(t.len() > 0);
    assert(t[0] == '.' || '0' <= t[0] <= '9') by {
        if a.len() > 0 {
            assert(t[0] == a[0]);
        }
    }
    assert(unsigned(t) == (false, t));
    assert forall|i: int| 0 <= i < t.len() implies lower(t)[i] == t[i] && t[i] != 'e' by {
        if i < a.len() {
            assert(t[i] == a[i]);
        } else if i > a.len() {
            assert(t[i] == b[i - a.len() - 1]);
        }
    }
    assert(lower(t) =~= t);
    no_letter_no_split(t);
    assert forall|j: int| 0 <= j < a.len() && j + "."@.len() <= t.len() implies
        #[trigger] t.subrange(j, j + "."@.len()) != "."@ by {
        assert(t.subrange(j, j + "."@.len())[0] == a[j]);
        assert("."@[0] == '.');
    }
    a_split_is_what_was_joined(a, "."@, b);
    if a.len() > 0 {
        assert(unsigned(a) == (false, a));
        assert(lower(a) =~= a);
        no_letter_no_split(a);
        no_point_no_split(a);
        assert(a + Seq::<char>::empty() =~= a);
    }
}

proof fn no_letter_no_split(t: Seq<char>)
    requires
        forall|i: int| 0 <= i < t.len() ==> #[trigger] t[i] != 'e',
    ensures
        parts(t, "e"@) is None,
{
    reveal_strlit("e");
    first_from_is_least(t, "e"@, 0);
    if let Some(i) = first_from(t, "e"@, 0) {
        assert(occurs_at(t, "e"@, i));
        assert(t.subrange(i, i + 1)[0] == t[i]);
    }
}

proof fn no_point_no_split(t: Seq<char>)
    requires
        decimal_digits(t),
    ensures
        parts(t, "."@) is None,
{
    reveal_strlit(".");
    first_from_is_least(t, "."@, 0);
    if let Some(i) = first_from(t, "."@, 0) {
        assert(occurs_at(t, "."@, i));
        assert(t.subrange(i, i + 1)[0] == t[i]);
    }
}

proof fn percent_sign_goes(t: Seq<char>)
    requires
        t.len() > 0,
        !is_space(t[0]),
        t.last() != '%',
    ensures
        without_trailing(trimmed(t + "%"@), '%') == t,
{
    reveal_strlit("%");
    let s = t + "%"@;
    assert(s[0] == t[0]);
    assert(s.last() == '%');
    assert(trim_front(s) == s);
    assert(trim_back(s) == s);
    assert(s =~= t + Seq::new(1, |i: int| '%'));
    trailing_characters_go(t, '%', 1);
}

/// A percentage in plain digits is read in millionths of a percent, rounded
/// down, unless it is too great to be held.
pub proof fn percentages_are_read_in_millionths(a: Seq<char>, b: Seq<char>)
    requires
        decimal_digits(a),
        decimal_digits(b),
        a.len() + b.len() > 0,
    ensures
        match percent_of(a + "."@ + b + "%"@) {
            Some(v) => is_millionths(v as int, reading(a + b) as int, b.len()),
            None => exists|v: int| #[trigger]
                is_millionths(v, reading(a + b) as int, b.len()) && v > u64::MAX,
        },
        a.len() > 0 ==> match percent_of(a + "%"@) {
            Some(v) => v == reading(a) * 1_000_000,
            None => reading(a) * 1_000_000 > u64::MAX,
        },
{
    reveal_strlit(".");
    let t = a + "."@ + b;
    plain_numbers_are_read(a, b);
    assert(t[0] == '.' || '0' <= t[0] <= '9') by {
        if a.len() > 0 {
            assert(t[0] == a[0]);
        }
    }
    assert(t.last() == '.' || '0' <= t.last() <= '9') by {
        if b.len() > 0 {
            assert(t.last() == b.last());
        }
    }
    percent_sign_goes(t);
    let d = a + b;
    assert forall|i: int| 0 <= i < d.len() implies '0' <= (#[trigger] d[i]) <= '9' by {
        if i < a.len() {
            assert(d[i] == a[i]);
        } else {
            assert(d[i] == b[i - a.len()]);
        }
    }
    leading_counts_millionths(d, b.len());
    assert(d.len() - b.len() + 6 == a.len() + 6);
    if a.len() > 0 {
        percent_sign_goes(a);
        more_digits_are_zeros(a, a.len() as int + 6);
        assert(pow(10, 6) == 1_000_000) by {
            reveal_with_fuel(pow, 7);
        }
    }
}

/// A percentage below zero is none.
pub proof fn negative_percentages_are_unknown(a: Seq<char>, b: Seq<char>, k: int)
    requires
        decimal_digits(a),
        decimal_digits(b),
        0 <= k < (a + b).len(),
        (a + b)[k] != '0',
    ensures
        percent_of("-"@ + (a + "."@ + b) + "%"@) is None,
{
    reveal_strlit("-");
    reveal_strlit(".");
    let t = a + "."@ + b;
    let s = "-"@ + t;
    plain_numbers_are_read(a, b);
    assert(t[0] == '.' || '0' <= t[0] <= '9') by {
        if a.len() > 0 {
            assert(t[0] == a[0]);
        }
    }
    assert(s.last() == t.last());
    assert(t.last() == '.' || '0' <= t.last() <= '9') by {
        if b.len() > 0 {
            assert(t.last() == b.last());
        }
    }
    percent_sign_goes(s);
    assert(s.skip(1) =~= t);
    assert(unsigned(s) == (true, t));
    assert(unsigned(t) == (false, t));
    assert(nonzero(a + b));
}

/// A text without any digit is no percentage.
pub proof fn words_are_no_percentages(s: Seq<char>)
    requires
        forall|i: int| 0 <= i < s.len() ==> !('0' <= (#[trigger] s[i]) <= '9'),
    ensures
        percent_of(s) is None,
{
    let t = without_trailing(trimmed(s), '%');
    crate::notation::trimming_takes_only_white_space(s);
    trailing_is_prefix(trimmed(s), '%');
    let (x, y) = choose|x: int, y: int|
        0 <= x <= y <= s.len() && trimmed(s) == #[trigger] s.subrange(x, y) && (forall|i: int|
            0 <= i < x || y <= i < s.len() ==> is_space(#[trigger] s[i]));
    assert forall|i: int| 0 <= i < t.len() implies !('0' <= (#[trigger] t[i]) <= '9') by {
        assert(t[i] == trimmed(s)[i]);
        assert(trimmed(s)[i] == s[x + i]);
    }
    let (neg, u) = unsigned(t);
    assert forall|i: int| 0 <= i < u.len() implies !('0' <= (#[trigger] u[i]) <= '9') by {
        assert(u[i] == t[i] || u[i] == t[i + 1]);
    }
    let l = lower(u);
    assert forall|i: int| 0 <= i < l.len() implies !('0' <= (#[trigger] l[i]) <= '9') by {
        assert(!('0' <= u[i] <= '9'));
    }
    let m = match parts(l, "e"@) {
        Some((m, x)) => m,
        None => l,
    };
    crate::notation::splits_are_at_the_first(l, "e"@);
    assert forall|i: int| 0 <= i < m.len() implies !('0' <= (#[trigger] m[i]) <= '9') by {
        assert(m[i] == l[i]);
    }
    crate::notation::splits_are_at_the_first(m, "."@);
    if let Some((a, b)) = mantissa(m) {
        if a.len() > 0 {
            assert(a[0] == m[0]);
            assert(is_digit(a[0]));
        } else {
            assert(parts(m, "."@) is Some);
            assert(b[0] == m[(a + "."@).len() as int]);
            assert(is_digit(b[0]));
        }
    }
}

proof fn trailing_is_prefix(s: Seq<char>, c: char)
    ensures
        without_trailing(s, c).len() <= s.len(),
        forall|i: int|
            0 <= i < without_trailing(s, c).len() ==> #[trigger] without_trailing(s, c)[i] == s[i],
    decreases s.len(),
{
    if s.len() > 0 && s.last() == c {
        trailing_is_prefix(s.drop_last(), c);
    }
}

proof fn pieces_without_separator(s: Seq<char>, c: char)
    requires
        !s.contains(c),
    ensures
        pieces(s, c) == seq![s],
    decreases s.len(),
{
    if s.len() > 0 {
        let less = s.drop_last();
        assert(s[s.len() - 1] != c) by {
            assert(s.contains(s[s.len() - 1]));
        }
        assert(!less.contains(c)) by {
            if less.contains(c) {
                let i = choose|i: int| 0 <= i < less.len() && less[i] == c;
                assert(s[i] == c);
            }
        }
        pieces_without_separator(less, c);
        assert(less.push(s.last()) =~= s);
        assert(pieces(s, c) =~= seq![s]);
    } else {
        assert(s =~= Seq::empty());
    }
}

proof fn pieces_behind_a_separator(a: Seq<char>, c: char, b: Seq<char>)
    ensures
        pieces(a + seq![c] + b, c) == pieces(a, c) + pieces(b, c),
    decreases b.len(),
{
    let s = a + seq![c] + b;
    pieces_not_empty(a, c);
    pieces_not_empty(b, c);
    if b.len() == 0 {
        assert(s.drop_last() =~= a);
        assert(pieces(s, c) =~= pieces(a, c) + pieces(b, c));
    } else {
        let less = b.drop_last();
        pieces_behind_a_separator(a, c, less);
        pieces_not_empty(less, c);
        assert(s.drop_last() =~= a + seq![c] + less);
        let rest = pieces(a, c) + pieces(less, c);
        assert(rest.drop_last() =~= pieces(a, c) + pieces(less, c).drop_last());
        assert(pieces(s, c) =~= pieces(a, c) + pieces(b, c));
    }
}

/// A line ends at its line feed and loses one carriage return before it. A last
/// line needs no line feed, and nothing is no line.
pub proof fn lines_end_at_line_feeds(l: Seq<char>, rest: Seq<char>)
    requires
        !l.contains('\n'),
    ensures
        lines_of(seq![]).len() == 0,
        l.len() > 0 ==> lines_of(l) == seq![l],
        l.len() == 0 || l.last() != '\r' ==> lines_of(l + seq!['\n'] + rest) == seq![l] + lines_of(
            rest,
        ),
        l.len() > 0 && l.last() == '\r' ==> lines_of(l + seq!['\n'] + rest) == seq![
            l.take(l.len() - 1),
        ] + lines_of(rest),
{
    pieces_without_separator(l, '\n');
    pieces_behind_a_separator(l, '\n', rest);
    pieces_not_empty(rest, '\n');
    let s = l + seq!['\n'] + rest;
    let all = pieces(s, '\n');
    let more = pieces(rest, '\n');
    assert(all.last() == more.last());
    assert(all.drop_last() =~= seq![l] + more.drop_last());
    assert(lines_of(seq![]) =~= seq![]);
    if l.len() > 0 {
        assert(lines_of(l) =~= seq![l]);
        assert(l.drop_last() =~= l.take(l.len() - 1));
    }
    assert(lines_of(s) =~= seq![crate::text::without_cr(l)] + lines_of(rest));
}

/// Every line with more than white space is a document, in order, and the first
/// that is none is the error.
pub proof fn documents_are_read_in_order(lines: Seq<Seq<char>>, line: Seq<char>)
    ensures
        objects(seq![]) == Ok::<Seq<Members>, Seq<char>>(Seq::empty()),
        objects(lines) is Err ==> objects(lines.push(line)) == objects(lines),
        objects(lines) is Ok && json_reading(line) is Err ==> objects(lines.push(line)) == Err::<
            Seq<Members>,
            Seq<char>,
        >(json_reading(line)->Err_0),
        objects(lines) is Ok && json_reading(line) is Ok ==> objects(lines.push(line)) == Ok::<
            Seq<Members>,
            Seq<char>,
        >(objects(lines)->Ok_0.push(json_reading(line)->Ok_0)),
{
    assert(lines.push(line).drop_last() =~= lines);
}

/// Containers need both listings; what is wrong with the metadata is said
/// first.
pub proof fn containers_need_both_listings(stats: Seq<char>, metadata: Seq<char>)
    ensures
        ({
            let filled = |l: Seq<char>| trimmed(l).len() > 0;
            let m = objects(lines_of(metadata).filter(filled));
            let s = objects(lines_of(stats).filter(filled));
            let r = containers_in(stats, metadata);
            &&& m is Err ==> r == Err::<Seq<ContainerView>, Seq<char>>(m->Err_0)
            &&& m is Ok && s is Err ==> r == Err::<Seq<ContainerView>, Seq<char>>(s->Err_0)
            &&& m is Ok && s is Ok ==> r == containers_joined(
                Seq::new(s->Ok_0.len(), |i: int| stat_in(s->Ok_0[i])),
                Seq::new(m->Ok_0.len(), |i: int| meta_in(m->Ok_0[i])),
            )
        }),
{
    let filled = |l: Seq<char>| trimmed(l).len() > 0;
    same_filter(lines_of(metadata), filled, |l: Seq<char>| trimmed(l).len() != 0);
    same_filter(lines_of(stats), filled, |l: Seq<char>| trimmed(l).len() != 0);
    if let (Ok(m), Ok(s)) = (
        objects(filled_lines(metadata)),
        objects(filled_lines(stats)),
    ) {
        assert(s.map_values(|x: Members| stat_in(x)) =~= Seq::new(
            s.len(),
            |i: int| stat_in(s[i]),
        ));
        assert(m.map_values(|x: Members| meta_in(x)) =~= Seq::new(
            m.len(),
            |i: int| meta_in(m[i]),
        ));
    }
}

proof fn same_filter(
    v: Seq<Seq<char>>,
    f: spec_fn(Seq<char>) -> bool,
    g: spec_fn(Seq<char>) -> bool,
)
    requires
        forall|x: Seq<char>| #[trigger] f(x) == g(x),
    ensures
        v.filter(f) == v.filter(g),
    decreases v.len(),
{
    reveal(Seq::filter);
    if v.len() > 0 {
        same_filter(v.drop_last(), f, g);
        assert(f(v.last()) == g(v.last()));
    }
}

/// A path in its shortest form: no empty name and no lone dot in it.
pub open spec fn is_clean(p: Seq<char>) -> bool {
    forall|i: int|
        0 <= i < pieces(p, '/').len() ==> (#[trigger] pieces(p, '/')[i]).len() > 0 && pieces(
            p,
            '/',
        )[i] != seq!['.']
}

proof fn all_pieces_stay(v: Seq<Seq<char>>, keep: spec_fn(Seq<char>) -> bool)
    requires
        forall|i: int| 0 <= i < v.len() ==> keep(#[trigger] v[i]),
    ensures
        v.filter(keep) == v,
    decreases v.len(),
{
    reveal(Seq::filter);
    if v.len() > 0 {
        assert(keep(v[v.len() - 1]));
        let less = v.drop_last();
        assert forall|i: int| 0 <= i < less.len() implies keep(#[trigger] less[i]) by {
            assert(less[i] == v[i]);
        }
        all_pieces_stay(less, keep);
        assert(v.filter(keep) =~= v);
    } else {
        assert(v.filter(keep) =~= v);
    }
}

proof fn a_clean_path_is_its_names(x: Seq<char>)
    requires
        is_clean(x),
    ensures
        path_of(seq!['/'] + x) == (true, false, pieces(x, '/')),
{
    let s = seq!['/'] + x;
    assert(s =~= Seq::<char>::empty() + seq!['/'] + x);
    pieces_of_a_join(seq![], x);
    let keep = |p: Seq<char>| p.len() != 0 && p != seq!['.'];
    assert(pieces(Seq::<char>::empty(), '/') == seq![Seq::<char>::empty()]);
    let all = pieces(s, '/');
    Seq::filter_distributes_over_add(seq![Seq::<char>::empty()], pieces(x, '/'), keep);
    one_needless(Seq::empty(), keep);
    all_pieces_stay(pieces(x, '/'), keep);
    assert(all.filter(keep) =~= pieces(x, '/'));
}

/// Two machines are the same by their tool, their instance and the place of
/// their home. Clean absolute paths are the same place only if they are equal;
/// a home that is unknown is no place.
pub proof fn machines_are_known_by_home_and_instance(
    a: IdentityView,
    b: IdentityView,
    x: Seq<char>,
    y: Seq<char>,
)
    requires
        is_clean(x),
        is_clean(y),
    ensures
        same_machine(a, b) ==> a.tool == b.tool && a.instance == b.instance,
        a.tool == b.tool && a.instance == b.instance ==> (same_machine(a, b) <==> same_place(
            a.lima_home,
            b.lima_home,
        )),
        same_place(Some(seq!['/'] + x), Some(seq!['/'] + y)) <==> x == y,
        same_place(None, None),
        !same_place(Some(x), None),
        !same_place(None, Some(x)),
{
    a_clean_path_is_its_names(x);
    a_clean_path_is_its_names(y);
    pieces_are_the_text(x, '/');
    pieces_are_the_text(y, '/');
}

/// A slash too many, a name that is a dot, and a slash at the end lead to the
/// same place.
pub proof fn needless_slashes_and_dots_do_not_matter(a: Seq<char>, b: Seq<char>)
    ensures
        same_place(
            Some(a + seq!['/'] + b),
            Some(a + seq!['/'] + (seq!['/'] + b)),
        ),
        same_place(
            Some(a + seq!['/'] + b),
            Some(a + seq!['/'] + (seq!['.', '/'] + b)),
        ),
        same_place(Some(a + seq!['/'] + b), Some(a + seq!['/'] + b + seq!['/'])),
{
    let keep = |p: Seq<char>| p.len() != 0 && p != seq!['.'];
    let e = Seq::<char>::empty();
    let s = a + seq!['/'] + b;
    let t = a + seq!['/'] + (seq!['/'] + b);
    let u = a + seq!['/'] + (seq!['.', '/'] + b);
    let w = s + seq!['/'];
    assert(seq!['/'] + b =~= e + seq!['/'] + b);
    assert(seq!['.', '/'] + b =~= seq!['.'] + seq!['/'] + b);
    assert(w =~= s + seq!['/'] + e);
    pieces_of_a_join(a, b);
    pieces_of_a_join(a, seq!['/'] + b);
    pieces_of_a_join(e, b);
    pieces_of_a_join(a, seq!['.', '/'] + b);
    pieces_of_a_join(seq!['.'], b);
    pieces_of_a_join(s, e);
    pieces_not_empty(a, '/');
    assert(pieces(e, '/') == seq![e]);
    assert(pieces(seq!['.'], '/') =~= seq![seq!['.']]) by {
        assert(seq!['.'].drop_last() =~= e);
        assert(e.push('.') =~= seq!['.']);
    }
    one_needless(e, keep);
    one_needless(seq!['.'], keep);
    let (pa, pb) = (pieces(a, '/'), pieces(b, '/'));
    Seq::filter_distributes_over_add(pa, pb, keep);
    Seq::filter_distributes_over_add(pa, seq![e] + pb, keep);
    Seq::filter_distributes_over_add(seq![e], pb, keep);
    Seq::filter_distributes_over_add(pa, seq![seq!['.']] + pb, keep);
    Seq::filter_distributes_over_add(seq![seq!['.']], pb, keep);
    Seq::filter_distributes_over_add(pa + pb, seq![e], keep);
    let names = pa.filter(keep) + pb.filter(keep);
    assert(seq![] + pb.filter(keep) =~= pb.filter(keep));
    assert(names + seq![] =~= names);
    assert(pieces(t, '/')[0] == pa[0] && pieces(u, '/')[0] == pa[0]);
    assert(pieces(s, '/')[0] == pa[0] && pieces(w, '/')[0] == pa[0]);
    assert(s[0] == t[0] && s[0] == u[0] && s[0] == w[0]) by {
        if a.len() > 0 {
            assert(s[0] == a[0]);
        }
    }
    assert(path_of(s).2 == names);
    assert(path_of(t).2 == names);
    assert(path_of(u).2 == names);
    assert(path_of(w).2 == names);
}

proof fn one_needless(p: Seq<char>, keep: spec_fn(Seq<char>) -> bool)
    requires
        !keep(p),
    ensures
        seq![p].filter(keep) == Seq::<Seq<char>>::empty(),
{
    reveal(Seq::filter);
    let one = seq![p];
    assert(one.drop_last() =~= seq![]);
    assert(one.drop_last().filter(keep) =~= seq![]);
}

/// A recording is named `session-`, then anything, then `.jsonl` or
/// `.jsonl.gz`.
pub proof fn recordings_are_known_by_name(a: Seq<char>, name: Seq<char>)
    ensures
        names_recording("session-"@ + a + ".jsonl"@),
        names_recording("session-"@ + a + ".jsonl.gz"@),
        names_recording(name) ==> name.len() >= "session-"@.len() && name.take(
            "session-"@.len() as int,
        ) == "session-"@,
        names_recording(name) ==> {
            ||| name.len() >= ".jsonl"@.len() && name.skip(name.len() - ".jsonl"@.len())
                == ".jsonl"@
            ||| name.len() >= ".jsonl.gz"@.len() && name.skip(name.len() - ".jsonl.gz"@.len())
                == ".jsonl.gz"@
        },
{
    let (h, x, y) = ("session-"@, ".jsonl"@, ".jsonl.gz"@);
    searches_find_what_was_put_there(h + a, x, seq![]);
    searches_find_what_was_put_there(h + a, y, seq![]);
    searches_find_what_was_put_there(seq![], h, a + x);
    searches_find_what_was_put_there(seq![], h, a + y);
    assert(h + (a + x) =~= h + a + x);
    assert(h + (a + y) =~= h + a + y);
    searches_find_only_what_is_there(name, h);
    searches_find_only_what_is_there(name, x);
    searches_find_only_what_is_there(name, y);
}

/// The recordings among some names are those so named, each in its place.
pub proof fn recordings_are_listed_in_order(entries: Seq<String>, entry: String)
    ensures
        recordings(seq![]).len() == 0,
        names_recording(entry@) ==> recordings(entries.push(entry)) == recordings(entries).push(
            entry@,
        ),
        !names_recording(entry@) ==> recordings(entries.push(entry)) == recordings(entries),
{
    assert(entries.push(entry).drop_last() =~= entries);
}

/// Only a session of schema one can be read; any other event can.
pub proof fn one_schema_is_known(r: Record)
    ensures
        match r {
            Record::Session { schema, .. } => r.known() <==> schema == 1,
            _ => r.known(),
        },
{
}

/// The line can be taken: it is an event, and no session of another schema.
pub open spec fn can_be_taken(line: Result<Record, String>) -> bool {
    match line {
        Ok(Record::Session { schema, .. }) => schema == 1,
        Ok(_) => true,
        Err(_) => false,
    }
}

/// A recording is taken up to its first line that cannot be. A line that is no
/// event is named by its number, counted from one.
pub proof fn errors_name_their_line(parsed: Seq<Result<Record, String>>, ending: EndingView, bad: int)
    requires
        0 <= bad < parsed.len(),
        !can_be_taken(parsed[bad]),
        forall|i: int| 0 <= i < bad ==> can_be_taken(#[trigger] parsed[i]),
    ensures
        ({
            let (taken, end) = accepted(parsed, ending, 0);
            &&& taken == Seq::new(bad as nat, |i: int| parsed[i]->Ok_0)
            &&& end == Err::<int, Seq<char>>(
                match parsed[bad] {
                    Err(e) => "record "@ + digits((bad + 1) as nat) + ": "@ + e@,
                    Ok(_) => "Unsupported recording schema"@,
                },
            )
        }),
{
    errors_count_on(parsed, ending, 0, bad);
}

proof fn errors_count_on(
    parsed: Seq<Result<Record, String>>,
    ending: EndingView,
    count: int,
    bad: int,
)
    requires
        0 <= bad < parsed.len(),
        count >= 0,
        !can_be_taken(parsed[bad]),
        forall|i: int| 0 <= i < bad ==> can_be_taken(#[trigger] parsed[i]),
    ensures
        ({
            let (taken, end) = accepted(parsed, ending, count);
            &&& taken == Seq::new(bad as nat, |i: int| parsed[i]->Ok_0)
            &&& end == Err::<int, Seq<char>>(
                match parsed[bad] {
                    Err(e) => "record "@ + digits((count + bad + 1) as nat) + ": "@ + e@,
                    Ok(_) => "Unsupported recording schema"@,
                },
            )
        }),
    decreases parsed.len(),
{
    if bad == 0 {
        assert(accepted(parsed, ending, count).0 =~= Seq::new(0, |i: int| parsed[i]->Ok_0));
    } else {
        assert(can_be_taken(parsed[0]));
        let rest = parsed.skip(1);
        assert forall|i: int| 0 <= i < bad - 1 implies can_be_taken(#[trigger] rest[i]) by {
            assert(rest[i] == parsed[i + 1]);
        }
        assert(rest[bad - 1] == parsed[bad]);
        errors_count_on(rest, ending, count + 1, bad - 1);
        assert(accepted(parsed, ending, count).0 =~= Seq::new(
            bad as nat,
            |i: int| parsed[i]->Ok_0,
        ));
    }
}

/// If every line can be taken, all are, and only what stands at the end can
/// still be wrong: text that is none, or damaged data. A record or member that
/// was cut short is passed over.
pub proof fn endings_are_told_apart(parsed: Seq<Result<Record, String>>, ending: EndingView)
    requires
        forall|i: int| 0 <= i < parsed.len() ==> can_be_taken(#[trigger] parsed[i]),
    ensures
        ({
            let (taken, end) = accepted(parsed, ending, 0);
            &&& taken == Seq::new(parsed.len(), |i: int| parsed[i]->Ok_0)
            &&& end == match ending {
                EndingView::NotText => Err::<int, Seq<char>>(
                    "stream did not contain valid UTF-8"@,
                ),
                EndingView::Damaged(e) => Err::<int, Seq<char>>(e),
                EndingView::Whole => Ok::<int, Seq<char>>(parsed.len() as int),
                EndingView::PartialRecord => Ok::<int, Seq<char>>(parsed.len() as int),
                EndingView::PartialMember => Ok::<int, Seq<char>>(parsed.len() as int),
            }
        }),
{
    endings_count_on(parsed, ending, 0);
}

proof fn endings_count_on(parsed: Seq<Result<Record, String>>, ending: EndingView, count: int)
    requires
        forall|i: int| 0 <= i < parsed.len() ==> can_be_taken(#[trigger] parsed[i]),
    ensures
        ({
            let (taken, end) = accepted(parsed, ending, count);
            &&& taken == Seq::new(parsed.len(), |i: int| parsed[i]->Ok_0)
            &&& end == match ending {
                EndingView::NotText => Err::<int, Seq<char>>(
                    "stream did not contain valid UTF-8"@,
                ),
                EndingView::Damaged(e) => Err::<int, Seq<char>>(e),
                _ => Ok::<int, Seq<char>>(count + parsed.len()),
            }
        }),
    decreases parsed.len(),
{
    if parsed.len() == 0 {
        assert(accepted(parsed, ending, count).0 =~= Seq::new(0, |i: int| parsed[i]->Ok_0));
    } else {
        assert(can_be_taken(parsed[0]));
        let rest = parsed.skip(1);
        assert forall|i: int| 0 <= i < rest.len() implies can_be_taken(#[trigger] rest[i]) by {
            assert(rest[i] == parsed[i + 1]);
        }
        endings_count_on(rest, ending, count + 1);
        assert(accepted(parsed, ending, count).0 =~= Seq::new(
            parsed.len(),
            |i: int| parsed[i]->Ok_0,
        ));
    }
}

/// A recording is compressed if it begins with the two bytes of gzip.
pub proof fn gzip_is_known_by_two_bytes(data: Seq<u8>)
    ensures
        compressed(data) <==> data.len() >= 2 && data[0] == 31 && data[1] == 139,
        !compressed(data) ==> recording_in(data) == records_in(data, Ok(true)),
{
}

/// A line is a record with its line feed; what follows the last line feed is
/// none, and the end says why it is missing.
pub proof fn records_end_at_line_feeds(line: Seq<u8>, rest: Seq<u8>, end: StreamEnd)
    requires
        forall|i: int| 0 <= i < line.len() ==> #[trigger] line[i] != 10,
    ensures
        ({
            let (records, ending) = records_in(line, end);
            &&& records.len() == 0
            &&& ending == match end {
                Err(e) => EndingView::Damaged(e),
                Ok(whole) => if !whole {
                    EndingView::PartialMember
                } else if line.len() > 0 {
                    EndingView::PartialRecord
                } else {
                    EndingView::Whole
                },
            }
        }),
        ({
            let first = line.push(10);
            let (records, ending) = records_in(first + rest, end);
            &&& valid_utf8(first) ==> records == seq![decode_utf8(first)] + records_in(rest, end).0
                && ending == records_in(rest, end).1
            &&& !valid_utf8(first) ==> records.len() == 0 && ending is NotText
        }),
{
    ends_of_lines(line, rest);
    let first = line.push(10);
    let all = first + rest;
    assert(all.take(line.len() as int + 1) =~= first);
    assert(all.skip(line.len() as int + 1) =~= rest);
}

proof fn ends_of_lines(line: Seq<u8>, rest: Seq<u8>)
    requires
        forall|i: int| 0 <= i < line.len() ==> #[trigger] line[i] != 10,
    ensures
        crate::record::line_end(line) == line.len(),
        crate::record::line_end(line.push(10) + rest) == line.len(),
    decreases line.len(),
{
    let all = line.push(10) + rest;
    if line.len() > 0 {
        assert(all[0] == line[0]);
        assert(all.skip(1) =~= line.skip(1).push(10) + rest);
        assert forall|i: int| 0 <= i < line.skip(1).len() implies #[trigger] line.skip(1)[i]
            != 10 by {
            assert(line.skip(1)[i] == line[i + 1]);
        }
        ends_of_lines(line.skip(1), rest);
    } else {
        assert(all[0] == 10);
    }
}

/// A relative path that begins with a dot is another place than one that does
/// not, and than an absolute one.
pub proof fn a_leading_dot_counts(x: Seq<char>)
    requires
        is_clean(x),
        x.len() > 0,
        x[0] != '/',
    ensures
        !same_place(Some(seq!['.', '/'] + x), Some(x)),
        !same_place(Some(seq!['/'] + x), Some(x)),
{
    let s = seq!['.', '/'] + x;
    assert(s =~= seq!['.'] + seq!['/'] + x);
    pieces_of_a_join(seq!['.'], x);
    pieces_not_empty(x, '/');
    let e = Seq::<char>::empty();
    assert(pieces(e, '/') == seq![e]);
    assert(pieces(seq!['.'], '/') =~= seq![seq!['.']]) by {
        assert(seq!['.'].drop_last() =~= e);
        assert(e.push('.') =~= seq!['.']);
    }
    assert(pieces(s, '/')[0] == seq!['.']);
    assert(pieces(x, '/')[0] != seq!['.']);
    assert((seq!['/'] + x)[0] == '/');
}

/// Names are listed in ascending order, each once; among equal names the first
/// stays first.
pub proof fn ascending_names_follow_each_other(v: Seq<Seq<char>>, order: Seq<usize>)
    requires
        is_ascending(v, order),
    ensures
        order.len() == v.len(),
        order.no_duplicates(),
        forall|p: int| 0 <= p < order.len() ==> (#[trigger] order[p]) < v.len(),
        forall|p: int, q: int|
            #![trigger order[p], order[q]]
            0 <= p < q < order.len() ==> text_before(v[order[p] as int], v[order[q] as int]) || (
            v[order[p] as int] == v[order[q] as int] && order[p] < order[q]),
{
}

/// A value of the system is its text up to the first zero byte, or unknown if
/// that is no text.
pub proof fn system_values_end_at_the_first_zero(a: Seq<u8>, rest: Seq<u8>)
    requires
        forall|i: int| 0 <= i < a.len() ==> #[trigger] a[i] != 0,
    ensures
        value_text(None) is None,
        ({
            let v = value_text(Some(a.push(0) + rest));
            let w = value_text(Some(a));
            &&& valid_utf8(a) ==> v == Some(decode_utf8(a)) && w == Some(decode_utf8(a))
            &&& !valid_utf8(a) ==> v is None && w is None
        }),
{
    crate::readings::texts_end_at_the_first_zero(a, rest);
    assert(a.push(0) + rest =~= a + seq![0u8] + rest);
}

/// Nothing is known of the GPU before it is polled.
pub proof fn a_blank_frame_says_nothing(f: GpuFrame)
    requires
        is_blank(f),
    ensures
        f.top_submitter_pid is None,
        f.top_submitter_name is None,
        f.top_submitter_uid is None,
        f.top_submitter_hits == 0,
        f.total_samples == 0,
        f.device_util_pct is None,
        f.in_use_mem_bytes is None,
        f.users@.len() == 0,
{
}

/// A poll that reaches the accelerator is one sample: it names the process that
/// submitted last, if there is one, and says how busy the accelerator is and
/// what memory it uses, if that is published. Without an answer nothing changes.
pub proof fn a_poll_is_one_sample(before: GpuFrame, after: GpuFrame, p: GpuProperties, pid: i32)
    ensures
        polled(before, after, None) ==> after == before,
        polled(before, after, Some(p)) ==> {
            &&& after.total_samples == 1
            &&& p.last_submitter == Some(pid as i64) && pid > 0 ==> after.top_submitter_pid == Some(
                pid,
            ) && after.top_submitter_hits == 1 && opt_text(after.top_submitter_name) == Some(
                name_by_path(pid, opt_text(p.submitter_path)),
            )
            &&& p.last_submitter is None || p.last_submitter->0 <= 0 ==> after.top_submitter_pid
                == before.top_submitter_pid && after.top_submitter_name == before.top_submitter_name
            &&& p.performance is Some ==> after.device_util_pct == p.performance->0.device_util
            &&& p.performance is Some && p.performance->0.in_use_memory is None
                ==> after.in_use_mem_bytes is None
            &&& p.performance is Some && p.performance->0.in_use_memory is Some
                && p.performance->0.in_use_memory->0 >= 0 ==> after.in_use_mem_bytes is Some
                && after.in_use_mem_bytes->0 == p.performance->0.in_use_memory->0
            &&& p.performance is None ==> after.device_util_pct == before.device_util_pct
                && after.in_use_mem_bytes == before.in_use_mem_bytes
        },
{
}

/// A plus sign changes nothing, and an exponent moves the point to the right.
pub proof fn exponents_move_the_point(a: Seq<char>, x: Seq<char>)
    requires
        decimal_digits(a),
        decimal_digits(x),
        a.len() > 0,
        x.len() > 0,
    ensures
        percent_of("+"@ + a + "%"@) == percent_of(a + "%"@),
        ({
            let v = reading(a) * pow(10, reading(x) + 6);
            match percent_of(a + "e"@ + x + "%"@) {
                Some(r) => r == v,
                None => v > u64::MAX,
            }
        }),
{
    reveal_strlit("+");
    reveal_strlit("e");
    let s = "+"@ + a;
    plain_numbers_are_read(a, seq![]);
    assert(s.last() == a.last());
    percent_sign_goes(s);
    percent_sign_goes(a);
    assert(s.skip(1) =~= a);
    assert(unsigned(s) == (false, a));
    assert(unsigned(a) == (false, a));
    let t = a + "e"@ + x;
    assert(t[0] == a[0]);
    assert(t.last() == x.last());
    percent_sign_goes(t);
    assert(unsigned(t) == (false, t));
    assert(lower(t) =~= t) by {
        assert forall|i: int| 0 <= i < t.len() implies lower(t)[i] == t[i] by {
            if i < a.len() {
                assert(t[i] == a[i]);
            } else if i > a.len() {
                assert(t[i] == x[i - a.len() - 1]);
            }
        }
    }
    assert forall|j: int| 0 <= j < a.len() && j + "e"@.len() <= t.len() implies
        #[trigger] t.subrange(j, j + "e"@.len()) != "e"@ by {
        assert(t.subrange(j, j + "e"@.len())[0] == a[j]);
        assert("e"@[0] == 'e');
    }
    a_split_is_what_was_joined(a, "e"@, x);
    no_point_no_split(a);
    assert(a + Seq::<char>::empty() =~= a);
    assert(unsigned(x) == (false, x));
    assert(all_digits(x)) by {
        assert forall|i: int| 0 <= i < x.len() implies is_digit(#[trigger] x[i]) by {}
    }
    assert(all_digits(a)) by {
        assert forall|i: int| 0 <= i < a.len() implies is_digit(#[trigger] a[i]) by {}
    }
    first_digits_are_read(x, x.len() as int);
    assert(x.take(x.len() as int) =~= x);
    assert(exponent(x) == Some(reading(x) as int));
    assert(number(t) == Some((false, a, a.len() + reading(x) as int)));
    more_digits_are_zeros(a, (a.len() + reading(x) + 6) as int);
}

} // verus!

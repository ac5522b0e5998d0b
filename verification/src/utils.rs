//! Money and quantities: parsing the decimal text that users type, and the
//! text shown for cents and thousandths, all in integers.
use vstd::prelude::*;

use crate::text::{
    all_digits, chars_of, decimal_digits, digits_value, int_text, is_ascii_digit, is_unicode_whitespace,
    lemma_decimal_digits_len, lemma_decimal_digits_value, lemma_digits_value_trailing_zero,
    lemma_zero_padded_value, parse_unsigned, parse_unsigned_spec, push_decimal, push_int,
    push_zero_padded, trim, trim_end_spec, trim_spec, trim_start_spec, zero_padded, zeros,
};

verus! {

// ---------------------------------------------------------------------------
// Integer helpers
// ---------------------------------------------------------------------------
/// Division rounding toward zero, as Rust's `/` on integers does.
pub open spec fn trunc_div(a: int, b: int) -> int
    recommends
        b > 0,
{
    if a >= 0 {
        a / b
    } else {
        -((-a) / b)
    }
}

/// The remainder that goes with `trunc_div`, as Rust's `%` gives it.
pub open spec fn trunc_rem(a: int, b: int) -> int
    recommends
        b > 0,
{
    a - b * trunc_div(a, b)
}

/// Division rounding toward zero: the quotient times the divisor falls short
/// of the dividend by less than the divisor, on the dividend's side of zero.
pub proof fn trunc_div_rounds_toward_zero(a: int, b: int)
    requires
        b > 0,
    ensures
        a >= 0 ==> 0 <= a - b * trunc_div(a, b) < b,
        a < 0 ==> -b < a - b * trunc_div(a, b) <= 0,
        a >= 0 ==> trunc_div(a, b) >= 0,
        a <= 0 ==> trunc_div(a, b) <= 0,
{
    if a >= 0 {
        vstd::arithmetic::div_mod::lemma_fundamental_div_mod(a, b);
        vstd::arithmetic::div_mod::lemma_mod_bound(a, b);
        vstd::arithmetic::div_mod::lemma_div_pos_is_pos(a, b);
    } else {
        vstd::arithmetic::div_mod::lemma_fundamental_div_mod(-a, b);
        vstd::arithmetic::div_mod::lemma_mod_bound(-a, b);
        vstd::arithmetic::div_mod::lemma_div_pos_is_pos(-a, b);
        assert(a - b * trunc_div(a, b) == -((-a) - b * ((-a) / b))) by (nonlinear_arith)
            requires
                trunc_div(a, b) == -((-a) / b),
        ;
    }
}

pub open spec fn as_int_option(r: Option<i64>) -> Option<int> {
    match r {
        Some(v) => Some(v as int),
        None => None,
    }
}

// ---------------------------------------------------------------------------
// Parsing
// ---------------------------------------------------------------------------
/// The pieces of `s` between occurrences of `sep`, as `str::split` yields
/// them (always at least one piece).
pub open spec fn split_on(s: Seq<char>, sep: char) -> Seq<Seq<char>>
    decreases s.len(),
{
    if s.len() == 0 {
        seq![Seq::<char>::empty()]
    } else {
        let p = split_on(s.drop_last(), sep);
        if s.last() == sep {
            p.push(Seq::<char>::empty())
        } else {
            p.update(p.len() - 1, p.last().push(s.last()))
        }
    }
}

/// Pieces joined back into one text with `sep` between them.
pub open spec fn join_on(pieces: Seq<Seq<char>>, sep: char) -> Seq<char>
    decreases pieces.len(),
{
    if pieces.len() == 0 {
        Seq::<char>::empty()
    } else if pieces.len() == 1 {
        pieces[0]
    } else {
        join_on(pieces.drop_last(), sep) + seq![sep] + pieces.last()
    }
}

/// Splitting on a separator loses nothing: there is at least one piece, and
/// joining the pieces back with the separator gives the text.
pub proof fn split_then_join(s: Seq<char>, sep: char)
    ensures
        split_on(s, sep).len() >= 1,
        join_on(split_on(s, sep), sep) == s,
    decreases s.len(),
{
    if s.len() == 0 {
        assert(s =~= Seq::<char>::empty());
    } else {
        let t = s.drop_last();
        let c = s.last();
        split_then_join(t, sep);
        let q = split_on(t, sep);
        let p = split_on(s, sep);
        if c == sep {
            assert(p.drop_last() =~= q);
            assert(join_on(p, sep) =~= t + seq![sep]);
        } else {
            if q.len() == 1 {
                assert(join_on(p, sep) =~= q[0].push(c));
            } else {
                assert(p.drop_last() =~= q.drop_last());
                assert(join_on(p, sep) =~= join_on(q, sep).push(c));
            }
        }
        assert(t.push(c) =~= s);
    }
}

/// Text without the separator is one piece.
pub proof fn lemma_split_without_sep(y: Seq<char>, sep: char)
    requires
        forall|i: int| 0 <= i < y.len() ==> #[trigger] y[i] != sep,
    ensures
        split_on(y, sep) == seq![y],
    decreases y.len(),
{
    if y.len() > 0 {
        let z = y.drop_last();
        assert forall|i: int| 0 <= i < z.len() implies #[trigger] z[i] != sep by {
            assert(z[i] == y[i]);
        }
        lemma_split_without_sep(z, sep);
        assert(z.push(y.last()) =~= y);
        assert(y.drop_last() =~= z);
        assert(seq![z].update(0, z.push(y.last())) =~= seq![y]);
    } else {
        assert(y =~= Seq::<char>::empty());
    }
}

/// A separator followed by text without it starts one more piece.
pub proof fn lemma_split_after_sep(x: Seq<char>, y: Seq<char>, sep: char)
    requires
        forall|i: int| 0 <= i < y.len() ==> #[trigger] y[i] != sep,
    ensures
        split_on(x.push(sep) + y, sep) == split_on(x, sep).push(y),
    decreases y.len(),
{
    if y.len() == 0 {
        assert(x.push(sep) + y =~= x.push(sep));
        assert((x.push(sep)).drop_last() =~= x);
        assert(y =~= Seq::<char>::empty());
    } else {
        let z = y.drop_last();
        assert forall|i: int| 0 <= i < z.len() implies #[trigger] z[i] != sep by {
            assert(z[i] == y[i]);
        }
        lemma_split_after_sep(x, z, sep);
        assert((x.push(sep) + y).drop_last() =~= x.push(sep) + z);
        let p = split_on(x, sep).push(z);
        assert(z.push(y.last()) =~= y);
        assert((x.push(sep) + y).last() == y.last());
        assert(p.update(p.len() - 1, z.push(y.last())) =~= split_on(x, sep).push(y));
    }
}

/// The pieces of `v` between occurrences of `sep`, as `str::split` yields
/// them.
pub fn split_chars(v: &Vec<char>, sep: char) -> (parts: Vec<Vec<char>>)
    ensures
        parts.len() == split_on(v@, sep).len(),
        forall|k: int| 0 <= k < parts.len() ==> (#[trigger] parts@[k])@ == split_on(v@, sep)[k],
{
    let mut parts: Vec<Vec<char>> = Vec::new();
    let mut current: Vec<char> = Vec::new();
    let mut i: usize = 0;
    while i < v.len()
        invariant
            i <= v.len(),
            parts.len() + 1 == split_on(v@.take(i as int), sep).len(),
            forall|k: int| 0 <= k < parts.len() ==> (#[trigger] parts@[k])@ == split_on(v@.take(i as int), sep)[k],
            current@ == split_on(v@.take(i as int), sep).last(),
        decreases v.len() - i,
    {
        let ghost p = split_on(v@.take(i as int), sep);
        assert(v@.take(i + 1).drop_last() =~= v@.take(i as int));
        let c = v[i];
        if c == sep {
            parts.push(current);
            current = Vec::new();
            assert(current@ =~= Seq::<char>::empty());
        } else {
            current.push(c);
        }
        i = i + 1;
        assert forall|k: int| 0 <= k < parts.len() implies (#[trigger] parts@[k])@ == split_on(v@.take(i as int), sep)[k] by {
            if k < p.len() - 1 {
                assert(split_on(v@.take(i as int), sep)[k] == p[k]);
            }
        }
    }
    assert(v@.take(v.len() as int) =~= v@);
    let ghost before = parts@;
    parts.push(current);
    assert forall|k: int| 0 <= k < parts.len() implies (#[trigger] parts@[k])@ == split_on(v@, sep)[k] by {
        if k < before.len() {
            assert(parts@[k] == before[k]);
        }
    }
    parts
}

/// The input trimmed, with every `,` read as `.`.
pub open spec fn normalized(input: Seq<char>) -> Seq<char> {
    trim_spec(input).map_values(|c: char| if c == ',' { '.' } else { c })
}

/// The ASCII digits of `s`, in order, with every other character left out.
pub open spec fn ascii_digits_of(s: Seq<char>) -> Seq<char>
    decreases s.len(),
{
    if s.len() == 0 {
        s
    } else if is_ascii_digit(s.last()) {
        ascii_digits_of(s.drop_last()).push(s.last())
    } else {
        ascii_digits_of(s.drop_last())
    }
}

/// `d` cut or filled with `0` on the right to exactly `w` characters.
pub open spec fn pad_or_truncate(d: Seq<char>, w: nat) -> Seq<char> {
    if d.len() >= w {
        d.take(w as int)
    } else {
        d + zeros(w - d.len())
    }
}

/// The value of the fractional part: its first `w` digits, padded with zeros.
pub open spec fn fraction_value(frac: Seq<char>, w: nat) -> int {
    digits_value(pad_or_truncate(ascii_digits_of(frac), w))
}

/// What parsing a decimal amount in units of `1 / scale` (with `w` fraction
/// digits) returns: `None` for empty text, text that starts with `-`, or more
/// than one separator, or when the whole part is not a number; else the
/// whole part times `scale` plus the fraction, capped at `i64::MAX`.
pub open spec fn parse_scaled_spec(input: Seq<char>, w: nat, scale: int) -> Option<int> {
    let n = normalized(input);
    let parts = split_on(n, '.');
    if n.len() == 0 || n[0] == '-' || parts.len() > 2 {
        None
    } else {
        match parse_unsigned_spec(parts[0], i64::MAX as int) {
            None => None,
            Some(whole) => {
                let frac = if parts.len() == 2 {
                    fraction_value(parts[1], w)
                } else {
                    0
                };
                let total = whole * scale + frac;
                Some(
                    if total > i64::MAX {
                        i64::MAX as int
                    } else {
                        total
                    },
                )
            },
        }
    }
}

proof fn lemma_all_digits_ascii_digits_of(s: Seq<char>)
    ensures
        all_digits(ascii_digits_of(s)),
    decreases s.len(),
{
    if s.len() > 0 {
        lemma_all_digits_ascii_digits_of(s.drop_last());
    }
}

pub proof fn lemma_digits_value_bound(s: Seq<char>)
    requires
        all_digits(s),
    ensures
        0 <= digits_value(s),
        s.len() <= 1 ==> digits_value(s) < 10,
        s.len() <= 2 ==> digits_value(s) < 100,
        s.len() <= 3 ==> digits_value(s) < 1000,
    decreases s.len(),
{
    if s.len() > 0 {
        let t = s.drop_last();
        assert(all_digits(t)) by {
            assert forall|i: int| 0 <= i < t.len() implies is_ascii_digit(#[trigger] t[i]) by {
                assert(t[i] == s[i]);
            }
        }
        lemma_digits_value_bound(t);
        assert(is_ascii_digit(s[s.len() - 1]));
    }
}

/// The value of the first `width` ASCII digits of `frac` (other characters
/// skipped), padded with zeros to `width` digits.
fn fraction_of(frac: &Vec<char>, width: usize) -> (v: i64)
    requires
        2 <= width <= 3,
    ensures
        v == fraction_value(frac@, width as nat),
        0 <= v < 1000,
{
    let mut ds: Vec<char> = Vec::new();
    let mut i: usize = 0;
    while i < frac.len()
        invariant
            i <= frac.len(),
            ds@ == ascii_digits_of(frac@.take(i as int)),
        decreases frac.len() - i,
    {
        let c = frac[i];
        assert(frac@.take(i + 1).drop_last() =~= frac@.take(i as int));
        if '0' <= c && c <= '9' {
            ds.push(c);
        }
        i = i + 1;
    }
    assert(frac@.take(frac.len() as int) =~= frac@);
    let mut padded: Vec<char> = Vec::new();
    let mut j: usize = 0;
    while j < width
        invariant
            j <= width,
            ds@ == ascii_digits_of(frac@),
            padded@ == pad_or_truncate(ds@, width as nat).take(j as int),
        decreases width - j,
    {
        let c = if j < ds.len() {
            ds[j]
        } else {
            '0'
        };
        padded.push(c);
        assert(padded@ =~= pad_or_truncate(ds@, width as nat).take(j + 1));
        j = j + 1;
    }
    assert(padded@ =~= pad_or_truncate(ds@, width as nat));
    proof {
        lemma_all_digits_ascii_digits_of(frac@);
        assert(all_digits(padded@)) by {
            assert forall|k: int| 0 <= k < padded@.len() implies is_ascii_digit(#[trigger] padded@[k]) by {
                if k < ds@.len() {
                    assert(padded@[k] == ds@[k]);
                }
            }
        }
        lemma_digits_value_bound(padded@);
    }
    match parse_unsigned(&padded, 999) {
        Some(v) => v as i64,
        None => 0,
    }
}

/// Parses a decimal amount into units of `1 / scale`, where `scale` is
/// `10^width`.
fn parse_scaled(input: &str, width: usize, scale: i64) -> (r: Option<i64>)
    requires
        width == 2 && scale == 100 || width == 3 && scale == 1000,
    ensures
        as_int_option(r) == parse_scaled_spec(input@, width as nat, scale as int),
        r matches Some(v) ==> v >= 0,
{
    let trimmed = trim(input);
    let chars = chars_of(trimmed.as_str());
    let ghost n = normalized(input@);
    assert(n.len() == chars@.len());
    if chars.len() == 0 || chars[0] == '-' {
        return None;
    }
    let mut whole: Vec<char> = Vec::new();
    let mut frac: Vec<char> = Vec::new();
    let mut pieces: usize = 1;
    let mut i: usize = 0;
    while i < chars.len()
        invariant
            i <= chars.len() == n.len(),
            chars@ == trim_spec(input@),
            n == normalized(input@),
            1 <= pieces <= 3,
            pieces == (if split_on(n.take(i as int), '.').len() > 3 { 3 } else { split_on(n.take(i as int), '.').len() }),
            whole@ == split_on(n.take(i as int), '.')[0],
            pieces >= 2 ==> frac@ == split_on(n.take(i as int), '.')[1],
            pieces < 2 ==> frac@ == Seq::<char>::empty(),
        decreases chars.len() - i,
    {
        let c = if chars[i] == ',' {
            '.'
        } else {
            chars[i]
        };
        let ghost prev = n.take(i as int);
        let ghost p = split_on(prev, '.');
        assert(n.take(i + 1).drop_last() =~= prev);
        assert(n.take(i + 1).last() == c);
        if c == '.' {
            if pieces < 3 {
                pieces = pieces + 1;
            }
        } else if pieces == 1 {
            whole.push(c);
        } else if pieces == 2 {
            frac.push(c);
        }
        i = i + 1;
    }
    assert(n.take(n.len() as int) =~= n);
    if pieces > 2 {
        return None;
    }
    let whole_value = match parse_unsigned(&whole, i64::MAX as u64) {
        Some(v) => v as i64,
        None => {
            return None;
        },
    };
    let fraction: i64 = if pieces == 2 {
        fraction_of(&frac, width)
    } else {
        0
    };
    let total = match whole_value.checked_mul(scale) {
        Some(p) => match p.checked_add(fraction) {
            Some(t) => t,
            None => i64::MAX,
        },
        None => i64::MAX,
    };
    Some(total)
}

/// Parses a money amount typed by a user (`"5.25"`, `"0,75"`, `"12"`) into
/// cents, without floating point.
pub fn parse_money_to_cents(input: &str) -> (r: Option<i64>)
    ensures
        as_int_option(r) == parse_scaled_spec(input@, 2, 100),
        r matches Some(v) ==> v >= 0,
{
    parse_scaled(input, 2, 100)
}

/// Parses a quantity typed by a user (`"1.5"`, `"0,001"`, `"3"`) into
/// thousandths.
pub fn parse_quantity_to_milli(input: &str) -> (r: Option<i64>)
    ensures
        as_int_option(r) == parse_scaled_spec(input@, 3, 1000),
        r matches Some(v) ==> v >= 0,
{
    parse_scaled(input, 3, 1000)
}

// ---------------------------------------------------------------------------
// Formatting
// ---------------------------------------------------------------------------
pub open spec fn abs_int(n: int) -> int {
    if n < 0 {
        -n
    } else {
        n
    }
}

/// Units and, when the cents are not zero, `.` and the two digits of cents.
pub open spec fn units_and_cents(abs: int) -> Seq<char> {
    decimal_digits((abs / 100) as nat) + if abs % 100 == 0 {
        Seq::<char>::empty()
    } else {
        seq!['.'] + zero_padded(abs % 100, 2)
    }
}

/// The text `format_money` shows: `"$ 10"`, `"$ 5.25"`, `"-$ 0.05"`.
pub open spec fn money_text(cents: int) -> Seq<char> {
    (if cents < 0 {
        seq!['-']
    } else {
        Seq::<char>::empty()
    }) + seq!['$', ' '] + units_and_cents(abs_int(cents))
}

/// The text `format_signed_money` shows: `"+25"`, `"-0.50"`, `"+0"`.
pub open spec fn signed_money_text(cents: int) -> Seq<char> {
    (if cents >= 0 {
        seq!['+']
    } else {
        seq!['-']
    }) + units_and_cents(abs_int(cents))
}

/// The text `format_quantity` shows for a number of thousandths.
pub open spec fn quantity_text(milli: int) -> Seq<char> {
    let whole = trunc_div(milli, 1000);
    let fraction = trunc_rem(milli, 1000);
    if fraction == 0 {
        int_text(whole)
    } else if fraction % 100 == 0 {
        int_text(whole) + seq!['.'] + int_text(fraction / 100)
    } else if fraction % 10 == 0 {
        int_text(whole) + seq!['.'] + zero_padded(fraction / 10, 2)
    } else {
        int_text(whole) + seq!['.'] + zero_padded(fraction, 3)
    }
}

fn magnitude(n: i64) -> (m: u64)
    ensures
        m == abs_int(n as int),
{
    if n < 0 {
        ((-(n + 1)) as u64) + 1
    } else {
        n as u64
    }
}

fn push_units_and_cents(s: &mut String, abs: u64)
    ensures
        final(s)@ == old(s)@ + units_and_cents(abs as int),
{
    push_decimal(s, abs / 100);
    let cents = abs % 100;
    if cents != 0 {
        let ghost mid = s@;
        s.push('.');
        push_zero_padded(s, false, cents, 2);
        assert(s@ =~= mid + (seq!['.'] + zero_padded(cents as int, 2)));
    }
    assert(final(s)@ =~= old(s)@ + units_and_cents(abs as int));
}

/// Money shown as `"$ 10"`, `"$ 5.25"` or, below zero, `"-$ 0.05"`.
pub fn format_money(cents: i64) -> (s: String)
    requires
        cents > i64::MIN,
    ensures
        s@ == money_text(cents as int),
{
    let mut s = String::new();
    if cents < 0 {
        s.push('-');
    }
    s.push('$');
    s.push(' ');
    let ghost mid = s@;
    push_units_and_cents(&mut s, magnitude(cents));
    assert(s@ =~= money_text(cents as int));
    s
}

/// A change in money with its sign always shown: `"+25"`, `"-0.50"`.
pub fn format_signed_money(cents: i64) -> (s: String)
    requires
        cents > i64::MIN,
    ensures
        s@ == signed_money_text(cents as int),
{
    let mut s = String::new();
    if cents >= 0 {
        s.push('+');
    } else {
        s.push('-');
    }
    push_units_and_cents(&mut s, magnitude(cents));
    assert(s@ =~= signed_money_text(cents as int));
    s
}

/// A quantity in thousandths shown with as few fraction digits as it needs:
/// `1500` is `"1.5"`, `2000` is `"2"`, `1005` is `"1.005"`.
pub fn format_quantity(quantity_milli: i64) -> (s: String)
    ensures
        s@ == quantity_text(quantity_milli as int),
{
    let negative = quantity_milli < 0;
    let m = magnitude(quantity_milli);
    let whole = m / 1000;
    let fraction = m % 1000;
    let ghost q = quantity_milli as int;
    let ghost w: int = if negative { -whole } else { whole as int };
    let ghost f: int = if negative { -fraction } else { fraction as int };
    assert(w == trunc_div(q, 1000));
    assert(f == trunc_rem(q, 1000));
    let mut s = String::new();
    push_int(&mut s, negative, whole);
    if fraction == 0 {
        assert(s@ =~= quantity_text(q));
        return s;
    }
    let ghost mid = s@;
    s.push('.');
    if fraction % 100 == 0 {
        push_int(&mut s, negative, fraction / 100);
        assert(f % 100 == 0 && f / 100 == (if negative { -(fraction / 100) } else { (fraction / 100) as int })) by {
            assert(fraction == 100 * (fraction / 100));
        }
    } else if fraction % 10 == 0 {
        push_zero_padded(&mut s, negative, fraction / 10, 2);
        assert(f % 100 != 0 && f % 10 == 0 && f / 10 == (if negative { -(fraction / 10) } else { (fraction / 10) as int })) by {
            assert(fraction == 10 * (fraction / 10));
            assert(fraction == 100 * (fraction / 100) + fraction % 100);
        }
    } else {
        push_zero_padded(&mut s, negative, fraction, 3);
        assert(f % 100 != 0 && f % 10 != 0) by {
            assert(fraction == 100 * (fraction / 100) + fraction % 100);
            assert(fraction == 10 * (fraction / 10) + fraction % 10);
        }
    }
    assert(s@ =~= quantity_text(q));
    s
}

/// The gain or loss in cents of holding `quantity_milli` thousandths bought
/// at `bought_for_cents` each, at the current unit value:
/// `(current - bought_for) * quantity / 1000`, rounded toward zero.
pub fn change_cents(current_unit_value_cents: i64, bought_for_cents: i64, quantity_milli: i64) -> (r: i64)
    requires
        i64::MIN <= current_unit_value_cents - bought_for_cents <= i64::MAX,
        i64::MIN <= (current_unit_value_cents - bought_for_cents) * quantity_milli <= i64::MAX,
    ensures
        r == trunc_div((current_unit_value_cents - bought_for_cents) * quantity_milli, 1000),
{
    (current_unit_value_cents - bought_for_cents) * quantity_milli / 1000
}

// ---------------------------------------------------------------------------
// Reading back what is shown
// ---------------------------------------------------------------------------
proof fn lemma_ascii_digits_of_digits(s: Seq<char>)
    requires
        all_digits(s),
    ensures
        ascii_digits_of(s) == s,
    decreases s.len(),
{
    if s.len() > 0 {
        let t = s.drop_last();
        assert(all_digits(t)) by {
            assert forall|i: int| 0 <= i < t.len() implies is_ascii_digit(#[trigger] t[i]) by {
                assert(t[i] == s[i]);
            }
        }
        lemma_ascii_digits_of_digits(t);
        assert(is_ascii_digit(s[s.len() - 1]));
        assert(t.push(s.last()) =~= s);
    }
}

/// Text that neither starts nor ends with white space and holds no `,` is
/// already normalized.
proof fn lemma_normalized_plain(s: Seq<char>)
    requires
        s.len() > 0,
        !is_unicode_whitespace(s[0]),
        !is_unicode_whitespace(s.last()),
        forall|i: int| 0 <= i < s.len() ==> #[trigger] s[i] != ',',
    ensures
        normalized(s) == s,
{
    assert(trim_start_spec(s) == s);
    assert(trim_end_spec(s) == s);
    assert(normalized(s) =~= s);
}

/// Whole part `w`, a `.` and fraction digits `f`: normalized as it is, and
/// split into `w` and `f`.
proof fn lemma_whole_dot_fraction(w: Seq<char>, f: Seq<char>)
    requires
        w.len() > 0,
        f.len() > 0,
        all_digits(w),
        all_digits(f),
    ensures
        normalized(w + seq!['.'] + f) == w + seq!['.'] + f,
        split_on(w + seq!['.'] + f, '.') == seq![w, f],
{
    let t = w + seq!['.'] + f;
    assert(is_ascii_digit(w[0]));
    assert(t[0] == w[0]);
    assert(is_ascii_digit(f[f.len() - 1]));
    assert(t.last() == f.last());
    assert forall|i: int| 0 <= i < t.len() implies #[trigger] t[i] != ',' by {
        if i < w.len() {
            assert(is_ascii_digit(w[i]));
        } else if i > w.len() {
            assert(t[i] == f[i - w.len() - 1]);
            assert(is_ascii_digit(f[i - w.len() - 1]));
        }
    }
    lemma_normalized_plain(t);
    assert forall|i: int| 0 <= i < w.len() implies #[trigger] w[i] != '.' by {
        assert(is_ascii_digit(w[i]));
    }
    assert forall|i: int| 0 <= i < f.len() implies #[trigger] f[i] != '.' by {
        assert(is_ascii_digit(f[i]));
    }
    lemma_split_without_sep(w, '.');
    lemma_split_after_sep(w, f, '.');
    assert(w.push('.') + f =~= t);
    assert(seq![w].push(f) =~= seq![w, f]);
}

/// Whole digits alone: normalized as they are, one piece, read as their value.
proof fn lemma_whole_alone(n: nat)
    ensures
        normalized(decimal_digits(n)) == decimal_digits(n),
        split_on(decimal_digits(n), '.') == seq![decimal_digits(n)],
        n <= i64::MAX ==> parse_unsigned_spec(decimal_digits(n), i64::MAX as int) == Some(n as int),
{
    let w = decimal_digits(n);
    lemma_decimal_digits_value(n);
    lemma_decimal_digits_len(n);
    assert(is_ascii_digit(w[0]));
    assert(is_ascii_digit(w[w.len() - 1]));
    assert forall|i: int| 0 <= i < w.len() implies #[trigger] w[i] != ',' && w[i] != '.' by {
        assert(is_ascii_digit(w[i]));
    }
    lemma_normalized_plain(w);
    lemma_split_without_sep(w, '.');
}

/// A quantity reads back as it is shown: parsing the text that
/// `format_quantity` shows for a quantity that is not negative gives the
/// same number of thousandths.
pub proof fn quantity_text_parses_back(q: int)
    requires
        0 <= q <= i64::MAX,
    ensures
        parse_scaled_spec(quantity_text(q), 3, 1000) == Some(q),
{
    let whole = q / 1000;
    let fraction = q % 1000;
    assert(trunc_div(q, 1000) == whole);
    assert(trunc_rem(q, 1000) == fraction);
    let w = decimal_digits(whole as nat);
    lemma_whole_alone(whole as nat);
    lemma_decimal_digits_len(whole as nat);
    lemma_decimal_digits_value(whole as nat);
    assert(int_text(whole) == w);
    assert(is_ascii_digit(w[0]));
    if fraction != 0 {
        let f = if fraction % 100 == 0 {
            int_text(fraction / 100)
        } else if fraction % 10 == 0 {
            zero_padded(fraction / 10, 2)
        } else {
            zero_padded(fraction, 3)
        };
        assert(quantity_text(q) == w + seq!['.'] + f);
        if fraction % 100 == 0 {
            let d = fraction / 100;
            lemma_decimal_digits_value(d as nat);
            lemma_decimal_digits_len(d as nat);
            lemma_ascii_digits_of_digits(f);
            lemma_digits_value_trailing_zero(f);
            lemma_digits_value_trailing_zero(f.push('0'));
            assert(pad_or_truncate(f, 3) =~= f.push('0').push('0'));
            assert(fraction_value(f, 3) == d * 100);
        } else if fraction % 10 == 0 {
            let e = fraction / 10;
            lemma_zero_padded_value(e as nat, 2);
            lemma_decimal_digits_len(e as nat);
            lemma_ascii_digits_of_digits(f);
            lemma_digits_value_trailing_zero(f);
            assert(pad_or_truncate(f, 3) =~= f.push('0'));
            assert(fraction_value(f, 3) == e * 10);
        } else {
            lemma_zero_padded_value(fraction as nat, 3);
            lemma_decimal_digits_len(fraction as nat);
            lemma_ascii_digits_of_digits(f);
            assert(pad_or_truncate(f, 3) =~= f);
        }
        lemma_whole_dot_fraction(w, f);
        assert(split_on(quantity_text(q), '.')[0] == w);
    }
}

/// An amount of money reads back as it is shown: parsing the units and
/// cents that `format_money` and `format_signed_money` show after their sign
/// gives the same number of cents, for an amount that is not negative.
pub proof fn money_amount_parses_back(c: int)
    requires
        0 <= c <= i64::MAX,
    ensures
        parse_scaled_spec(units_and_cents(c), 2, 100) == Some(c),
{
    let units = c / 100;
    let cents = c % 100;
    let w = decimal_digits(units as nat);
    lemma_whole_alone(units as nat);
    lemma_decimal_digits_len(units as nat);
    lemma_decimal_digits_value(units as nat);
    assert(is_ascii_digit(w[0]));
    if cents == 0 {
        assert(units_and_cents(c) =~= w);
    } else {
        let f = zero_padded(cents, 2);
        assert(units_and_cents(c) =~= w + seq!['.'] + f);
        lemma_zero_padded_value(cents as nat, 2);
        lemma_decimal_digits_len(cents as nat);
        lemma_ascii_digits_of_digits(f);
        assert(pad_or_truncate(f, 2) =~= f);
        lemma_whole_dot_fraction(w, f);
        assert(split_on(units_and_cents(c), '.')[0] == w);
    }
}

/// A change of money reads back as it is shown: parsing the text that
/// `format_signed_money` shows for a change that is not negative (`+`, then
/// the units and cents) gives the same number of cents.
pub proof fn signed_money_text_parses_back(c: int)
    requires
        0 <= c <= i64::MAX,
    ensures
        parse_scaled_spec(signed_money_text(c), 2, 100) == Some(c),
{
    let units = c / 100;
    let cents = c % 100;
    let w = decimal_digits(units as nat);
    let pw = seq!['+'] + w;
    lemma_decimal_digits_value(units as nat);
    lemma_decimal_digits_len(units as nat);
    assert(pw.drop_first() =~= w);
    assert(parse_unsigned_spec(pw, i64::MAX as int) == Some(units));
    assert forall|i: int| 0 <= i < pw.len() implies #[trigger] pw[i] != '.' && pw[i] != ',' by {
        if i > 0 {
            assert(pw[i] == w[i - 1]);
            assert(is_ascii_digit(w[i - 1]));
        }
    }
    lemma_split_without_sep(pw, '.');
    assert(abs_int(c) == c);
    assert(pw[0] == '+');
    if cents == 0 {
        assert(signed_money_text(c) =~= pw);
        assert(is_ascii_digit(w[w.len() - 1]));
        assert(pw.last() == w.last());
        lemma_normalized_plain(pw);
    } else {
        let f = zero_padded(cents, 2);
        let t = pw + seq!['.'] + f;
        assert(signed_money_text(c) =~= t);
        lemma_zero_padded_value(cents as nat, 2);
        lemma_decimal_digits_len(cents as nat);
        lemma_ascii_digits_of_digits(f);
        assert(pad_or_truncate(f, 2) =~= f);
        assert(is_ascii_digit(f[f.len() - 1]));
        assert(t.last() == f.last());
        assert(t[0] == '+');
        assert forall|i: int| 0 <= i < t.len() implies #[trigger] t[i] != ',' by {
            if i < pw.len() {
                assert(t[i] == pw[i]);
            } else if i > pw.len() {
                assert(t[i] == f[i - pw.len() - 1]);
                assert(is_ascii_digit(f[i - pw.len() - 1]));
            }
        }
        lemma_normalized_plain(t);
        assert forall|i: int| 0 <= i < f.len() implies #[trigger] f[i] != '.' by {
            assert(is_ascii_digit(f[i]));
        }
        lemma_split_after_sep(pw, f, '.');
        assert(pw.push('.') + f =~= t);
        assert(seq![pw].push(f) =~= seq![pw, f]);
    }
}

} // verus!

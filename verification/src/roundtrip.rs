//! What is typed comes back.
//!
//! A decimal number has one plain notation: no zeros in front of its
//! integer part, no zeros at the end of its fraction. The laws of this
//! module say that the positional text of a render, once trimmed, is that
//! notation of the number that the render denotes. They leave out one kind
//! of number and say what becomes of it: a whole number with a zero at its
//! end, so large that its text has no point, loses its zeros to the trim.

use crate::decimal::{
    all_digits, completed, exponent_value, formatted, is_digit, lemma_positional_keeps_value,
    lemma_zeros_behind_digits, natural_value, positional, pow10, unsigned, zeros,
};
use crate::display::{trimmed, without_trailing_zeros};
use vstd::prelude::*;

verus! {

/// Whether `digits` writes a natural number without zeros in front: a
/// single digit, or more digits of which the first is not zero.
pub open spec fn plain(digits: Seq<char>) -> bool {
    &&& all_digits(digits)
    &&& digits.len() >= 1
    &&& digits.len() == 1 || digits[0] != '0'
}

/// The text of an integer part and a fraction with the point between them.
pub open spec fn pointed(integer: Seq<char>, fraction: Seq<char>) -> Seq<char> {
    integer + seq!['.'] + fraction
}

/// Whether `integer.fraction` and `other_integer.other_fraction` denote the
/// same number: brought to the same number of places behind the point, the
/// digits have the same value.
pub open spec fn same_number(
    integer: Seq<char>,
    fraction: Seq<char>,
    other_integer: Seq<char>,
    other_fraction: Seq<char>,
) -> bool {
    natural_value(integer + fraction) * pow10(other_fraction.len()) == natural_value(
        other_integer + other_fraction,
    ) * pow10(fraction.len())
}

/// A power of ten is one at least.
proof fn lemma_pow10_positive(n: nat)
    ensures
        pow10(n) >= 1,
    decreases n,
{
    if n > 0 {
        lemma_pow10_positive((n - 1) as nat);
    }
}

/// Powers of ten multiply by adding their exponents.
proof fn lemma_pow10_adds(a: nat, b: nat)
    ensures
        pow10(a + b) == pow10(a) * pow10(b),
    decreases a,
{
    if a == 0 {
        assert(1 * pow10(b) == pow10(b));
    } else {
        lemma_pow10_adds((a - 1) as nat, b);
        let p = pow10((a - 1) as nat);
        let q = pow10(b);
        assert(pow10(a + b) == 10 * pow10((a - 1 + b) as nat));
        assert(10 * (p * q) == (10 * p) * q) by (nonlinear_arith);
    }
}

/// A larger exponent gives no smaller power of ten.
proof fn lemma_pow10_grows(a: nat, b: nat)
    requires
        a <= b,
    ensures
        pow10(a) <= pow10(b),
    decreases b,
{
    if a < b {
        lemma_pow10_grows(a, (b - 1) as nat);
        lemma_pow10_positive((b - 1) as nat);
    }
}

/// The value of digits one behind the other: the first run is shifted by
/// the length of the second.
proof fn lemma_value_of_both(front: Seq<char>, back: Seq<char>)
    ensures
        natural_value(front + back) == natural_value(front) * pow10(back.len()) + natural_value(
            back,
        ),
    decreases back.len(),
{
    let v = natural_value(front);
    if back.len() == 0 {
        assert(front + back =~= front);
        assert(v * 1 == v);
    } else {
        let shorter = back.drop_last();
        assert((front + back).drop_last() =~= front + shorter);
        assert((front + back).last() == back.last());
        lemma_value_of_both(front, shorter);
        let p = pow10(shorter.len());
        assert(10 * (v * p) == v * (10 * p)) by (nonlinear_arith);
    }
}

/// A run of digits denotes less than ten to the power of its length.
proof fn lemma_value_below(digits: Seq<char>)
    requires
        all_digits(digits),
    ensures
        0 <= natural_value(digits) < pow10(digits.len()),
    decreases digits.len(),
{
    if digits.len() > 0 {
        lemma_value_below(digits.drop_last());
    }
}

/// A run of digits that does not begin with zero denotes ten to the power
/// of its length less one, or more.
proof fn lemma_value_above(digits: Seq<char>)
    requires
        all_digits(digits),
        digits.len() >= 1,
        digits[0] != '0',
    ensures
        natural_value(digits) >= pow10((digits.len() - 1) as nat),
    decreases digits.len(),
{
    if digits.len() == 1 {
        assert(digits.drop_last().len() == 0);
        assert(natural_value(digits.drop_last()) == 0);
        assert(digits.last() == digits[0]);
    } else {
        let shorter = digits.drop_last();
        assert(shorter[0] == digits[0]);
        lemma_value_above(shorter);
    }
}

/// Runs of digits of the same length and value are the same.
proof fn lemma_same_length_same_digits(left: Seq<char>, right: Seq<char>)
    requires
        all_digits(left),
        all_digits(right),
        left.len() == right.len(),
        natural_value(left) == natural_value(right),
    ensures
        left == right,
    decreases left.len(),
{
    if left.len() > 0 {
        lemma_same_length_same_digits(left.drop_last(), right.drop_last());
        assert(left =~= left.drop_last().push(left.last()));
        assert(right =~= right.drop_last().push(right.last()));
    } else {
        assert(left =~= right);
    }
}

/// Plain runs of digits of the same value are the same.
proof fn lemma_plain_same_value(left: Seq<char>, right: Seq<char>)
    requires
        plain(left),
        plain(right),
        natural_value(left) == natural_value(right),
    ensures
        left == right,
{
    lemma_value_below(left);
    lemma_value_below(right);
    if left.len() < right.len() {
        lemma_plain_longer_is_larger(left, right);
    } else if right.len() < left.len() {
        lemma_plain_longer_is_larger(right, left);
    }
    lemma_same_length_same_digits(left, right);
}

/// Of two plain runs of digits the longer one denotes more.
proof fn lemma_plain_longer_is_larger(short: Seq<char>, long: Seq<char>)
    requires
        plain(short),
        plain(long),
        short.len() < long.len(),
    ensures
        natural_value(short) < natural_value(long),
{
    lemma_value_below(short);
    lemma_value_above(long);
    lemma_pow10_grows(short.len(), (long.len() - 1) as nat);
}

/// Zeros behind a text are lost with its own trailing zeros.
proof fn lemma_zeros_are_trimmed(text: Seq<char>, n: nat)
    ensures
        without_trailing_zeros(text + zeros(n)) == without_trailing_zeros(text),
    decreases n,
{
    if n == 0 {
        assert(text + zeros(0) =~= text);
    } else {
        let longer = text + zeros(n);
        assert(longer.last() == '0');
        assert(longer.drop_last() =~= text + zeros((n - 1) as nat));
        lemma_zeros_are_trimmed(text, (n - 1) as nat);
    }
}

/// The digits of a number with zeros behind its fraction, so that it has
/// `places` digits behind the point.
proof fn lemma_padded(integer: Seq<char>, fraction: Seq<char>, places: nat)
    requires
        all_digits(integer),
        all_digits(fraction),
        fraction.len() <= places,
    ensures
        all_digits(fraction + zeros((places - fraction.len()) as nat)),
        natural_value(integer + (fraction + zeros((places - fraction.len()) as nat)))
            == natural_value(integer + fraction) * pow10((places - fraction.len()) as nat),
        trimmed(pointed(integer, fraction + zeros((places - fraction.len()) as nat))) == trimmed(
            pointed(integer, fraction),
        ),
{
    let n = (places - fraction.len()) as nat;
    lemma_zeros_behind_digits(integer + fraction, n);
    assert(integer + (fraction + zeros(n)) =~= (integer + fraction) + zeros(n));
    lemma_zeros_are_trimmed(pointed(integer, fraction), n);
    assert(pointed(integer, fraction + zeros(n)) =~= pointed(integer, fraction) + zeros(n));
}

/// A number has one plain notation. Two texts with a plain integer part
/// that denote the same number are the same once they are trimmed.
pub proof fn lemma_one_plain_notation(
    integer: Seq<char>,
    fraction: Seq<char>,
    other_integer: Seq<char>,
    other_fraction: Seq<char>,
)
    requires
        plain(integer),
        plain(other_integer),
        all_digits(fraction),
        all_digits(other_fraction),
        same_number(integer, fraction, other_integer, other_fraction),
    ensures
        trimmed(pointed(integer, fraction)) == trimmed(pointed(other_integer, other_fraction)),
{
    let places = if fraction.len() <= other_fraction.len() {
        other_fraction.len()
    } else {
        fraction.len()
    };
    let a = (places - fraction.len()) as nat;
    let b = (places - other_fraction.len()) as nat;
    let padded = fraction + zeros(a);
    let other_padded = other_fraction + zeros(b);
    lemma_padded(integer, fraction, places);
    lemma_padded(other_integer, other_fraction, places);
    let v = natural_value(integer + fraction);
    let w = natural_value(other_integer + other_fraction);
    // With `places` digits behind the point, both have digits of the same value.
    assert(v * pow10(a) == w * pow10(b)) by {
        lemma_pow10_adds(a, fraction.len());
        lemma_pow10_adds(b, other_fraction.len());
        lemma_pow10_positive(fraction.len());
        lemma_pow10_positive(other_fraction.len());
        let pf = pow10(fraction.len());
        let po = pow10(other_fraction.len());
        let pa = pow10(a);
        let pb = pow10(b);
        assert(pa * pf == pb * po);
        if a == 0 {
            assert(pa == 1);
            assert(pf == pb * po);
            assert(v * po == w * (pb * po));
            assert(v * 1 == w * pb) by (nonlinear_arith)
                requires
                    v * po == w * (pb * po),
                    po >= 1,
            ;
        } else {
            assert(b == 0);
            assert(pb == 1);
            assert(po == pa * pf);
            assert(v * (pa * pf) == w * pf);
            assert(v * pa == w * 1) by (nonlinear_arith)
                requires
                    v * (pa * pf) == w * pf,
                    pf >= 1,
            ;
        }
    }
    lemma_value_of_both(integer, padded);
    lemma_value_of_both(other_integer, other_padded);
    lemma_value_below(padded);
    lemma_value_below(other_padded);
    let p = pow10(places);
    assert(padded.len() == places && other_padded.len() == places);
    let i = natural_value(integer);
    let j = natural_value(other_integer);
    let r = natural_value(padded);
    let s = natural_value(other_padded);
    assert(i == j && r == s) by (nonlinear_arith)
        requires
            i * p + r == j * p + s,
            0 <= r < p,
            0 <= s < p,
    ;
    lemma_plain_same_value(integer, other_integer);
    lemma_same_length_same_digits(padded, other_padded);
}

/// Whether the render `integer.fraction` with the exponent `exponent`
/// denotes the number that was typed as `typed_integer.typed_fraction`:
/// brought to the same number of places behind the point, the digits have
/// the same value. The render has its fraction digits less the exponent
/// behind the point, or none and a zero for each place that is missing.
pub open spec fn denotes(
    integer: Seq<char>,
    fraction: Seq<char>,
    exponent: int,
    typed_integer: Seq<char>,
    typed_fraction: Seq<char>,
) -> bool {
    let beyond = if exponent > fraction.len() {
        (exponent - fraction.len()) as nat
    } else {
        0
    };
    let behind = if exponent < fraction.len() {
        (fraction.len() - exponent) as nat
    } else {
        0
    };
    natural_value(integer + fraction) * pow10(beyond) * pow10(typed_fraction.len())
        == natural_value(typed_integer + typed_fraction) * pow10(behind)
}

/// Whether moving the point by `exponent` puts no zero in front: the
/// exponent is not positive, or the render does not begin with zero.
pub open spec fn moves_plainly(integer: Seq<char>, exponent: int) -> bool {
    exponent <= 0 || integer[0] != '0'
}

/// Whether trimming leaves the digits of the number alone: moving the point
/// by `exponent` leaves a point in the text, or the number, which is whole
/// then, was typed without a zero at its end.
pub open spec fn survives_trim(fraction: Seq<char>, exponent: int, typed_integer: Seq<char>) -> bool {
    exponent <= 0 || exponent < fraction.len() || typed_integer.last() != '0'
}

/// A run of zeros denotes zero.
proof fn lemma_zeros_value(n: nat)
    ensures
        all_digits(zeros(n)),
        natural_value(zeros(n)) == 0,
{
    let none = Seq::<char>::empty();
    lemma_zeros_behind_digits(none, n);
    assert(none + zeros(n) =~= zeros(n));
    assert(0 * pow10(n) == 0);
}

/// A whole number that was typed plainly, with zeros only behind its point,
/// is its integer part once it is trimmed.
proof fn lemma_trimmed_whole(integer: Seq<char>, n: nat)
    requires
        plain(integer),
    ensures
        trimmed(pointed(integer, zeros(n))) == integer,
        integer.last() != '0' ==> trimmed(integer) == integer,
{
    let bare = integer + seq!['.'];
    assert(pointed(integer, zeros(n)) =~= bare + zeros(n));
    lemma_zeros_are_trimmed(bare, n);
    assert(bare.last() == '.');
    assert(without_trailing_zeros(bare) == bare);
    assert(bare.drop_last() =~= integer);
    assert(is_digit(integer.last()));
}

/// Where moving the point leaves none, the text is the whole number as it
/// is typed plainly.
proof fn lemma_whole_number_comes_back(
    integer: Seq<char>,
    fraction: Seq<char>,
    exponent: int,
    typed_integer: Seq<char>,
    typed_fraction: Seq<char>,
)
    requires
        plain(integer),
        all_digits(fraction),
        plain(typed_integer),
        all_digits(typed_fraction),
        exponent > 0,
        exponent >= fraction.len(),
        integer[0] != '0',
        denotes(integer, fraction, exponent, typed_integer, typed_fraction),
    ensures
        positional(integer, fraction, exponent).text() == typed_integer,
        typed_fraction == zeros(typed_fraction.len()),
{
    let beyond = (exponent - fraction.len()) as nat;
    let text = positional(integer, fraction, exponent).text();
    assert(text =~= (integer + fraction) + zeros(beyond));
    lemma_zeros_behind_digits(integer + fraction, beyond);
    assert(text[0] == integer[0]);
    assert(plain(text));
    lemma_value_of_both(typed_integer, typed_fraction);
    lemma_value_below(typed_fraction);
    let p = pow10(typed_fraction.len());
    let d = natural_value(text);
    let i = natural_value(typed_integer);
    let r = natural_value(typed_fraction);
    assert(pow10(0) == 1);
    assert(d * p == (i * p + r) * 1);
    assert(d == i && r == 0) by (nonlinear_arith)
        requires
            d * p == (i * p + r) * 1,
            0 <= r < p,
    ;
    lemma_plain_same_value(text, typed_integer);
    lemma_zeros_value(typed_fraction.len());
    lemma_same_length_same_digits(typed_fraction, zeros(typed_fraction.len()));
}

/// The positional text of a render, once trimmed, is the trimmed text of
/// the number that the render denotes. Left out is the whole number with a
/// zero at its end whose text has no point: trimming takes its zeros.
pub proof fn lemma_positional_comes_back(
    integer: Seq<char>,
    fraction: Seq<char>,
    exponent: int,
    typed_integer: Seq<char>,
    typed_fraction: Seq<char>,
)
    requires
        plain(integer),
        all_digits(fraction),
        plain(typed_integer),
        all_digits(typed_fraction),
        moves_plainly(integer, exponent),
        survives_trim(fraction, exponent, typed_integer),
        denotes(integer, fraction, exponent, typed_integer, typed_fraction),
    ensures
        trimmed(positional(integer, fraction, exponent).text()) == trimmed(
            pointed(typed_integer, typed_fraction),
        ),
{
    let moved = positional(integer, fraction, exponent);
    if exponent > 0 && exponent >= fraction.len() {
        lemma_whole_number_comes_back(integer, fraction, exponent, typed_integer, typed_fraction);
        lemma_trimmed_whole(typed_integer, typed_fraction.len());
    } else {
        lemma_positional_keeps_value(integer, fraction, exponent);
        let behind = moved.fraction.unwrap();
        let whole = natural_value(integer + fraction);
        assert(pow10(0) == 1);
        assert(whole * 1 == whole);
        assert(all_digits(behind));
        assert(plain(moved.integer));
        assert(moved.text() == pointed(moved.integer, behind));
        lemma_one_plain_notation(moved.integer, behind, typed_integer, typed_fraction);
    }
}

/// The zeros of such a whole number are lost. Where moving the point leaves
/// none and the number was typed with a zero at its end, the trimmed text
/// is shorter than what was typed.
pub proof fn lemma_whole_number_loses_zeros(
    integer: Seq<char>,
    fraction: Seq<char>,
    exponent: int,
    typed_integer: Seq<char>,
    typed_fraction: Seq<char>,
)
    requires
        plain(integer),
        all_digits(fraction),
        plain(typed_integer),
        all_digits(typed_fraction),
        moves_plainly(integer, exponent),
        !survives_trim(fraction, exponent, typed_integer),
        denotes(integer, fraction, exponent, typed_integer, typed_fraction),
    ensures
        trimmed(positional(integer, fraction, exponent).text()) != trimmed(
            pointed(typed_integer, typed_fraction),
        ),
{
    lemma_whole_number_comes_back(integer, fraction, exponent, typed_integer, typed_fraction);
    lemma_trimmed_whole(typed_integer, typed_fraction.len());
    crate::display::lemma_trimmed_drops_zeros_and_point(typed_integer);
    assert(without_trailing_zeros(typed_integer) == without_trailing_zeros(
        typed_integer.drop_last(),
    ));
    crate::display::lemma_trimmed_drops_zeros_and_point(typed_integer.drop_last());
}

/// The sign in front of a text.
pub open spec fn sign(negative: bool) -> Seq<char> {
    if negative {
        seq!['-']
    } else {
        Seq::<char>::empty()
    }
}

/// A render with all of its parts: the sign of a negative number, the
/// digits with their point, the exponent marker and the exponent.
pub open spec fn scientific(
    negative: bool,
    integer: Seq<char>,
    fraction: Seq<char>,
    exponent: Seq<char>,
) -> Seq<char> {
    sign(negative) + pointed(integer, fraction) + seq!['e'] + exponent
}

/// The first place of a character that does not occur in front of it.
proof fn lemma_first_place(front: Seq<char>, c: char, back: Seq<char>)
    requires
        !front.contains(c),
    ensures
        (front + seq![c] + back).index_of_first(c) == Some(front.len() as int),
{
    let text = front + seq![c] + back;
    text.index_of_first_ensures(c);
    assert(text[front.len() as int] == c);
    assert(text.contains(c));
    let found = text.index_of_first(c).unwrap();
    if found < front.len() {
        assert(front[found] == c);
        assert(front.contains(c));
    }
}

/// A run of digits holds neither point nor exponent marker.
proof fn lemma_digits_only(digits: Seq<char>)
    requires
        all_digits(digits),
    ensures
        !digits.contains('.'),
        !digits.contains('e'),
{
    if digits.contains('.') {
        let i = choose|i: int| 0 <= i < digits.len() && digits[i] == '.';
        assert(is_digit(digits[i]));
    }
    if digits.contains('e') {
        let i = choose|i: int| 0 <= i < digits.len() && digits[i] == 'e';
        assert(is_digit(digits[i]));
    }
}

/// The formatted text of a render with all of its parts is the positional
/// text of its digits, behind the sign of a negative value. `minus` says
/// whether the render has a `-` in front, which it has for a negative value
/// and may have for a zero.
pub proof fn lemma_formatted_scientific(
    rendered: Seq<char>,
    minus: bool,
    negative: bool,
    integer: Seq<char>,
    fraction: Seq<char>,
    exponent: Seq<char>,
)
    requires
        all_digits(integer),
        all_digits(fraction),
        negative ==> minus,
        completed(rendered) == scientific(minus, integer, fraction, exponent),
        exponent_value(exponent) matches Some(e) && i64::MIN <= e <= i64::MAX,
    ensures
        formatted(rendered, negative) == Some(
            sign(negative) + positional(
                integer,
                fraction,
                exponent_value(exponent).unwrap(),
            ).text(),
        ),
{
    let text = scientific(minus, integer, fraction, exponent);
    let body = pointed(integer, fraction) + seq!['e'] + exponent;
    assert(text =~= sign(minus) + body);
    if minus {
        assert(text[0] == '-');
        assert(text.drop_first() =~= body);
    } else if integer.len() > 0 {
        assert(is_digit(integer[0]));
        assert(text[0] == integer[0]);
    } else {
        assert(text[0] == '.');
    }
    assert(unsigned(text, negative) == Some(body));
    lemma_digits_only(integer);
    lemma_digits_only(fraction);
    let rest = fraction + seq!['e'] + exponent;
    assert(body =~= integer + seq!['.'] + rest);
    lemma_first_place(integer, '.', rest);
    assert(body.skip(integer.len() as int + 1) =~= rest);
    assert(body.take(integer.len() as int) =~= integer);
    lemma_first_place(fraction, 'e', exponent);
    assert(rest.take(fraction.len() as int) =~= fraction);
    assert(rest.skip(fraction.len() as int + 1) =~= exponent);
}

/// What is typed comes back. Where a render with all of its parts denotes
/// the number that was typed, the formatted text of the render, once
/// trimmed, is what was typed, trimmed too, behind the sign of a negative
/// number. `minus` says whether the render has a `-` in front, which it
/// has for a negative value and may have for a zero. Left out is the whole
/// number with a zero at its end whose text has no point.
pub proof fn lemma_typed_number_comes_back(
    rendered: Seq<char>,
    minus: bool,
    negative: bool,
    integer: Seq<char>,
    fraction: Seq<char>,
    exponent: Seq<char>,
    typed_integer: Seq<char>,
    typed_fraction: Seq<char>,
)
    requires
        plain(integer),
        all_digits(fraction),
        plain(typed_integer),
        all_digits(typed_fraction),
        negative ==> minus,
        completed(rendered) == scientific(minus, integer, fraction, exponent),
        exponent_value(exponent) matches Some(e) && {
            &&& i64::MIN <= e <= i64::MAX
            &&& moves_plainly(integer, e)
            &&& survives_trim(fraction, e, typed_integer)
            &&& denotes(integer, fraction, e, typed_integer, typed_fraction)
        },
    ensures
        formatted(rendered, negative) matches Some(text) && trimmed(text) == sign(
            negative,
        ) + trimmed(pointed(typed_integer, typed_fraction)),
{
    let e = exponent_value(exponent).unwrap();
    lemma_formatted_scientific(rendered, minus, negative, integer, fraction, exponent);
    lemma_positional_comes_back(integer, fraction, e, typed_integer, typed_fraction);
    let moved = positional(integer, fraction, e).text();
    lemma_trimmed_behind_sign(negative, moved);
}

/// Trimming leaves the sign in front of a text alone.
proof fn lemma_trimmed_behind_sign(negative: bool, text: Seq<char>)
    ensures
        trimmed(sign(negative) + text) == sign(negative) + trimmed(text),
{
    lemma_kept_behind_sign(negative, text);
    let kept = without_trailing_zeros(text);
    if kept.len() > 0 {
        assert((sign(negative) + kept).last() == kept.last());
        assert((sign(negative) + kept).drop_last() =~= sign(negative) + kept.drop_last());
    } else {
        assert(sign(negative) + kept =~= sign(negative));
    }
    assert(sign(negative) + trimmed(text) =~= trimmed(sign(negative) + text));
}

/// The trailing zeros of a text are those of the text behind its sign.
proof fn lemma_kept_behind_sign(negative: bool, text: Seq<char>)
    ensures
        without_trailing_zeros(sign(negative) + text) == sign(negative) + without_trailing_zeros(
            text,
        ),
    decreases text.len(),
{
    let whole = sign(negative) + text;
    if text.len() > 0 && text.last() == '0' {
        assert(whole.last() == '0');
        assert(whole.drop_last() =~= sign(negative) + text.drop_last());
        lemma_kept_behind_sign(negative, text.drop_last());
    } else if text.len() > 0 {
        assert(whole.last() == text.last());
    } else {
        assert(whole =~= sign(negative));
    }
}

} // verus!

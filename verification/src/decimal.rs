//! Positional decimal notation from a significand-and-exponent render.
//!
//! A render is a text such as `-1.25e-3`: an optional sign, a run of digits
//! before the point, a run of digits behind it and a base-10 exponent. The
//! functions here take such a text apart and move the point by the exponent,
//! so that no exponent marker is left in the result.

use vstd::prelude::*;
use vstd::string::*;

verus! {

/// A render that cannot be taken apart: its sign, its point or its exponent
/// is not where the formatter needs it.
#[derive(Debug, PartialEq, Eq)]
pub struct MalformedRender;

/// The parts of an unsigned render.
pub struct RenderParts {
    /// What stands before the first point.
    pub integer: Seq<char>,
    /// What stands between the first point and the exponent marker.
    pub fraction: Seq<char>,
    /// What stands behind the exponent marker.
    pub exponent: Seq<char>,
}

/// A number in positional notation: the digits before the point and, where a
/// point is written, the digits behind it.
pub struct Positional {
    pub integer: Seq<char>,
    pub fraction: Option<Seq<char>>,
}

impl Positional {
    /// The text of the number.
    pub open spec fn text(self) -> Seq<char> {
        match self.fraction {
            Some(fraction) => self.integer + seq!['.'] + fraction,
            None => self.integer,
        }
    }
}

/// The render with `.0` behind it where it holds no point, and then `e0`
/// behind it where it holds no exponent marker.
pub open spec fn completed(rendered: Seq<char>) -> Seq<char> {
    let pointed = if rendered.contains('.') {
        rendered
    } else {
        rendered + seq!['.', '0']
    };
    if pointed.contains('e') {
        pointed
    } else {
        pointed + seq!['e', '0']
    }
}

/// The text without its sign. A leading `-` is taken off wherever it
/// stands, so that the sign of a zero is lost; a negative value must carry
/// one.
pub open spec fn unsigned(text: Seq<char>, negative: bool) -> Option<Seq<char>> {
    if text.len() > 0 && text[0] == '-' {
        Some(text.drop_first())
    } else if negative {
        None
    } else {
        Some(text)
    }
}

/// The text cut at its first point and, behind that, at the first exponent
/// marker.
pub open spec fn split_render(body: Seq<char>) -> Option<RenderParts> {
    match body.index_of_first('.') {
        None => None,
        Some(point) => {
            let rest = body.skip(point + 1);
            match rest.index_of_first('e') {
                None => None,
                Some(marker) => Some(
                    RenderParts {
                        integer: body.take(point),
                        fraction: rest.take(marker),
                        exponent: rest.skip(marker + 1),
                    },
                ),
            }
        },
    }
}

/// Whether `c` is a decimal digit.
pub open spec fn is_digit(c: char) -> bool {
    '0' <= c <= '9'
}

/// The number a decimal digit stands for.
pub open spec fn digit_value(c: char) -> int {
    c as int - '0' as int
}

/// Whether every character of `text` is a decimal digit.
pub open spec fn all_digits(text: Seq<char>) -> bool {
    forall|i: int| 0 <= i < text.len() ==> is_digit(#[trigger] text[i])
}

/// The natural number that a run of decimal digits denotes.
pub open spec fn natural_value(digits: Seq<char>) -> int
    decreases digits.len(),
{
    if digits.len() == 0 {
        0
    } else {
        10 * natural_value(digits.drop_last()) + digit_value(digits.last())
    }
}

/// The digits of an exponent text, behind its sign if it has one.
pub open spec fn exponent_digits(text: Seq<char>) -> Seq<char> {
    if text.len() > 0 && (text[0] == '-' || text[0] == '+') {
        text.drop_first()
    } else {
        text
    }
}

/// The integer that an exponent text denotes: an optional `+` or `-` and at
/// least one decimal digit.
pub open spec fn exponent_value(text: Seq<char>) -> Option<int> {
    let digits = exponent_digits(text);
    if digits.len() > 0 && all_digits(digits) {
        if text[0] == '-' {
            Some(-natural_value(digits))
        } else {
            Some(natural_value(digits))
        }
    } else {
        None
    }
}

/// A run of `n` zero digits.
pub open spec fn zeros(n: nat) -> Seq<char> {
    Seq::new(n, |i: int| '0')
}

/// The digits of `integer.fraction` with the point moved by `exponent`
/// places: to the right for a positive exponent, to the left for a negative
/// one.
pub open spec fn positional(integer: Seq<char>, fraction: Seq<char>, exponent: int) -> Positional {
    if exponent == 0 {
        Positional { integer, fraction: Some(fraction) }
    } else if exponent > 0 {
        if exponent < fraction.len() {
            Positional {
                integer: integer + fraction.take(exponent),
                fraction: Some(fraction.skip(exponent)),
            }
        } else {
            Positional {
                integer: integer + fraction + zeros((exponent - fraction.len()) as nat),
                fraction: None,
            }
        }
    } else {
        if -exponent < integer.len() {
            Positional {
                integer: integer.take(integer.len() + exponent),
                fraction: Some(integer.skip(integer.len() + exponent) + fraction),
            }
        } else {
            Positional {
                integer: seq!['0'],
                fraction: Some(zeros((-exponent - integer.len()) as nat) + integer + fraction),
            }
        }
    }
}

/// The positional text of a render, with `-` in front exactly where
/// `negative` says that the value is below zero, or `None` where the render
/// is malformed. The sign that the render itself carries is not written.
pub open spec fn formatted(rendered: Seq<char>, negative: bool) -> Option<Seq<char>> {
    match unsigned(completed(rendered), negative) {
        None => None,
        Some(body) => match split_render(body) {
            None => None,
            Some(parts) => match exponent_value(parts.exponent) {
                None => None,
                Some(exponent) => if i64::MIN <= exponent <= i64::MAX {
                    let prefix = if negative {
                        seq!['-']
                    } else {
                        Seq::<char>::empty()
                    };
                    Some(prefix + positional(parts.integer, parts.fraction, exponent).text())
                } else {
                    None
                },
            },
        },
    }
}

/// The place of the first `needle` in `text`, counted in characters.
pub fn find_char(text: &str, needle: char) -> (found: Option<usize>)
    ensures
        match found {
            Some(i) => text@.index_of_first(needle) == Some(i as int),
            None => text@.index_of_first(needle) is None,
        },
{
    let n = text.unicode_len();
    let mut i: usize = 0;
    while i < n
        invariant
            n == text@.len(),
            i <= n,
            forall|j: int| 0 <= j < i ==> text@[j] != needle,
        decreases n - i,
    {
        if text.get_char(i) == needle {
            proof {
                text@.index_of_first_ensures(needle);
            }
            return Some(i);
        }
        i += 1;
    }
    proof {
        text@.index_of_first_ensures(needle);
    }
    None
}

/// The number that the decimal digit `c` stands for, if it is one.
pub fn digit_of(c: char) -> (d: Option<u8>)
    ensures
        match d {
            Some(v) => is_digit(c) && v == digit_value(c),
            None => !is_digit(c),
        },
{
    if c >= '0' && c <= '9' {
        Some((c as u32 - '0' as u32) as u8)
    } else {
        None
    }
}

/// The value of a run of digits grows by one decimal place with each digit.
proof fn lemma_natural_value_step(digits: Seq<char>, k: int)
    requires
        0 <= k < digits.len(),
    ensures
        natural_value(digits.take(k + 1)) == 10 * natural_value(digits.take(k)) + digit_value(
            digits[k],
        ),
{
    assert(digits.take(k + 1).drop_last() =~= digits.take(k));
}

/// A prefix of a run of digits denotes no more than the whole run.
proof fn lemma_natural_value_prefix(digits: Seq<char>, k: int)
    requires
        all_digits(digits),
        0 <= k <= digits.len(),
    ensures
        0 <= natural_value(digits.take(k)) <= natural_value(digits),
    decreases digits.len() - k,
{
    if k == digits.len() {
        assert(digits.take(k) =~= digits);
        lemma_natural_value_nonnegative(digits);
    } else {
        lemma_natural_value_nonnegative(digits.take(k));
        lemma_natural_value_step(digits, k);
        lemma_natural_value_prefix(digits, k + 1);
    }
}

/// A run of digits denotes a natural number.
proof fn lemma_natural_value_nonnegative(digits: Seq<char>)
    requires
        all_digits(digits),
    ensures
        0 <= natural_value(digits),
    decreases digits.len(),
{
    if digits.len() > 0 {
        lemma_natural_value_nonnegative(digits.drop_last());
    }
}

/// Reads an exponent: an optional `+` or `-`, then decimal digits. The result
/// is `None` where the text is no such integer or the integer does not fit
/// in 64 bits.
pub fn parse_exponent(text: &str) -> (parsed: Option<i64>)
    ensures
        match parsed {
            Some(v) => exponent_value(text@) == Some(v as int),
            None => match exponent_value(text@) {
                Some(e) => e < i64::MIN || e > i64::MAX,
                None => true,
            },
        },
{
    let n = text.unicode_len();
    if n == 0 {
        return None;
    }
    let first = text.get_char(0);
    let negative = first == '-';
    let start: usize = if first == '-' || first == '+' {
        1
    } else {
        0
    };
    let ghost digits = exponent_digits(text@);
    assert(digits =~= text@.skip(start as int));
    if start == n {
        return None;
    }
    let mut magnitude: u64 = 0;
    let mut i: usize = start;
    assert(digits.take(0) =~= Seq::<char>::empty());
    while i < n
        invariant
            start <= i <= n,
            n == text@.len(),
            digits == text@.skip(start as int),
            digits == exponent_digits(text@),
            all_digits(digits.take(i - start)),
            magnitude == natural_value(digits.take(i - start)),
            magnitude <= 0x8000_0000_0000_0000,
        decreases n - i,
    {
        let ghost k = i - start;
        match digit_of(text.get_char(i)) {
            None => {
                assert(!is_digit(digits[k]));
                return None;
            },
            Some(d) => {
                proof {
                    lemma_natural_value_step(digits, k);
                    assert forall|j: int| 0 <= j < k + 1 implies is_digit(
                        #[trigger] digits.take(k + 1)[j],
                    ) by {
                        if j < k {
                            assert(digits.take(k + 1)[j] == digits.take(k)[j]);
                        }
                    }
                }
                let next: u128 = magnitude as u128 * 10 + d as u128;
                if next > 0x8000_0000_0000_0000 {
                    proof {
                        if all_digits(digits) {
                            lemma_natural_value_prefix(digits, k + 1);
                        }
                    }
                    return None;
                }
                magnitude = next as u64;
            },
        }
        i += 1;
    }
    assert(digits.take(i - start) =~= digits);
    if negative {
        if magnitude == 0x8000_0000_0000_0000 {
            Some(i64::MIN)
        } else {
            Some(-(magnitude as i64))
        }
    } else if magnitude > 0x7fff_ffff_ffff_ffff {
        None
    } else {
        Some(magnitude as i64)
    }
}

/// Writes `.0` behind a render without a point, and then `e0` behind one
/// without an exponent marker.
pub fn complete(rendered: &str) -> (text: String)
    ensures
        text@ == completed(rendered@),
{
    let mut text = String::from_str(rendered);
    proof {
        rendered@.index_of_first_ensures('.');
    }
    if find_char(rendered, '.').is_none() {
        proof {
            reveal_strlit(".0");
        }
        text.append(".0");
        assert(text@ =~= rendered@ + seq!['.', '0']);
    }
    proof {
        text@.index_of_first_ensures('e');
    }
    if find_char(text.as_str(), 'e').is_none() {
        let ghost pointed = text@;
        proof {
            reveal_strlit("e0");
        }
        text.append("e0");
        assert(text@ =~= pointed + seq!['e', '0']);
    }
    text
}

/// Takes the sign off a text: a leading `-` wherever it stands. A negative
/// value must carry one.
pub fn strip_sign<'a>(text: &'a str, negative: bool) -> (body: Option<&'a str>)
    ensures
        match body {
            Some(b) => unsigned(text@, negative) == Some(b@),
            None => unsigned(text@, negative) is None,
        },
{
    let n = text.unicode_len();
    if n > 0 && text.get_char(0) == '-' {
        let body = text.substring_char(1, n);
        assert(body@ =~= text@.drop_first());
        Some(body)
    } else if negative {
        None
    } else {
        Some(text)
    }
}

/// Cuts an unsigned render at its first point and, behind that, at the
/// first exponent marker.
pub fn split<'a>(body: &'a str) -> (parts: Option<(&'a str, &'a str, &'a str)>)
    ensures
        match parts {
            Some((integer, fraction, exponent)) => split_render(body@) == Some(
                RenderParts { integer: integer@, fraction: fraction@, exponent: exponent@ },
            ),
            None => split_render(body@) is None,
        },
{
    let n = body.unicode_len();
    match find_char(body, '.') {
        None => None,
        Some(point) => {
            proof {
                body@.index_of_first_ensures('.');
            }
            let rest = body.substring_char(point + 1, n);
            assert(rest@ =~= body@.skip(point + 1));
            match find_char(rest, 'e') {
                None => None,
                Some(marker) => {
                    proof {
                        rest@.index_of_first_ensures('e');
                    }
                    let integer = body.substring_char(0, point);
                    let fraction = rest.substring_char(0, marker);
                    let exponent = rest.substring_char(marker + 1, n - point - 1);
                    assert(integer@ =~= body@.take(point as int));
                    assert(fraction@ =~= rest@.take(marker as int));
                    assert(exponent@ =~= rest@.skip(marker + 1));
                    Some((integer, fraction, exponent))
                },
            }
        },
    }
}

/// Writes `count` zero digits behind `text`.
pub fn append_zeros(text: &mut String, count: u64)
    ensures
        final(text)@ == old(text)@ + zeros(count as nat),
{
    let ghost before = text@;
    let mut written: u64 = 0;
    assert(text@ =~= before + zeros(0));
    while written < count
        invariant
            written <= count,
            text@ == before + zeros(written as nat),
        decreases count - written,
    {
        proof {
            reveal_strlit("0");
        }
        text.append("0");
        written += 1;
        assert(text@ =~= before + zeros(written as nat));
    }
}

/// Moves the point of `integer.fraction` by `exponent` places and writes the
/// number out in positional notation.
pub fn reposition(integer: &str, fraction: &str, exponent: i64) -> (text: String)
    ensures
        text@ == positional(integer@, fraction@, exponent as int).text(),
{
    let integer_len = integer.unicode_len();
    let fraction_len = fraction.unicode_len();
    proof {
        reveal_strlit(".");
        reveal_strlit("0.");
    }
    if exponent == 0 {
        let mut text = String::from_str(integer);
        text.append(".");
        text.append(fraction);
        assert(text@ =~= integer@ + seq!['.'] + fraction@);
        text
    } else if exponent > 0 {
        let shift = exponent as u64;
        if shift < fraction_len as u64 {
            let at = shift as usize;
            let mut text = String::from_str(integer);
            text.append(fraction.substring_char(0, at));
            text.append(".");
            text.append(fraction.substring_char(at, fraction_len));
            assert(text@ =~= (integer@ + fraction@.take(at as int)) + seq!['.'] + fraction@.skip(
                at as int,
            ));
            text
        } else {
            let mut text = String::from_str(integer);
            text.append(fraction);
            append_zeros(&mut text, shift - fraction_len as u64);
            text
        }
    } else {
        let shift: u64 = (-(exponent + 1)) as u64 + 1;
        if shift < integer_len as u64 {
            let at = integer_len - shift as usize;
            let mut text = String::from_str(integer.substring_char(0, at));
            text.append(".");
            text.append(integer.substring_char(at, integer_len));
            text.append(fraction);
            assert(text@ =~= integer@.take(at as int) + seq!['.'] + (integer@.skip(at as int)
                + fraction@));
            text
        } else {
            let mut text = String::from_str("0.");
            append_zeros(&mut text, shift - integer_len as u64);
            text.append(integer);
            text.append(fraction);
            assert(text@ =~= seq!['0'] + seq!['.'] + (zeros((shift - integer_len) as nat)
                + integer@ + fraction@));
            text
        }
    }
}

/// Ten to the power of `n`.
pub open spec fn pow10(n: nat) -> nat
    decreases n,
{
    if n == 0 {
        1
    } else {
        10 * pow10((n - 1) as nat)
    }
}

/// Zeros behind a run of digits multiply its value by ten each.
pub proof fn lemma_zeros_behind_digits(digits: Seq<char>, n: nat)
    ensures
        natural_value(digits + zeros(n)) == natural_value(digits) * pow10(n),
    decreases n,
{
    let v = natural_value(digits);
    if n == 0 {
        assert(digits + zeros(0) =~= digits);
        assert(pow10(0) == 1);
        assert(v * 1 == v);
    } else {
        let longer = digits + zeros(n);
        let shorter = digits + zeros((n - 1) as nat);
        assert(longer.drop_last() =~= shorter);
        assert(longer.last() == '0');
        assert(natural_value(longer) == 10 * natural_value(shorter) + digit_value('0'));
        lemma_zeros_behind_digits(digits, (n - 1) as nat);
        let p = pow10((n - 1) as nat);
        assert(pow10(n) == 10 * p);
        assert(10 * (v * p) == v * (10 * p)) by (nonlinear_arith);
    }
}

/// Zeros in front of a run of digits leave its value as it is.
proof fn lemma_zeros_in_front(n: nat, digits: Seq<char>)
    ensures
        natural_value(zeros(n) + digits) == natural_value(digits),
    decreases digits.len(),
{
    if digits.len() == 0 {
        assert(zeros(n) + digits =~= Seq::<char>::empty() + zeros(n));
        lemma_zeros_behind_digits(Seq::<char>::empty(), n);
        assert(0 * pow10(n) == 0) by (nonlinear_arith);
    } else {
        assert((zeros(n) + digits).drop_last() =~= zeros(n) + digits.drop_last());
        assert((zeros(n) + digits).last() == digits.last());
        lemma_zeros_in_front(n, digits.drop_last());
    }
}

/// Moving the point keeps the number. Read as one run of digits, the
/// positional form has the value of the digits of the render, times ten for
/// each place by which the exponent exceeds the digits behind the point;
/// and it has as many digits behind its point as the render has, less the
/// exponent, where that is not negative, and none otherwise. So
/// `integer.fraction` times ten to the power of `exponent` and the
/// positional form denote the same number.
pub proof fn lemma_positional_keeps_value(integer: Seq<char>, fraction: Seq<char>, exponent: int)
    ensures
        ({
            let moved = positional(integer, fraction, exponent);
            let behind = match moved.fraction {
                Some(digits) => digits,
                None => Seq::<char>::empty(),
            };
            let beyond = if exponent > fraction.len() {
                (exponent - fraction.len()) as nat
            } else {
                0
            };
            &&& natural_value(moved.integer + behind) == natural_value(integer + fraction) * pow10(
                beyond,
            )
            &&& behind.len() == if exponent < fraction.len() {
                fraction.len() - exponent
            } else {
                0
            }
        }),
{
    let moved = positional(integer, fraction, exponent);
    let behind = match moved.fraction {
        Some(digits) => digits,
        None => Seq::<char>::empty(),
    };
    let whole = integer + fraction;
    assert(natural_value(whole) * pow10(0) == natural_value(whole)) by (nonlinear_arith)
        requires
            pow10(0) == 1,
    ;
    if exponent == 0 {
        assert(moved.integer + behind =~= whole);
    } else if exponent > 0 {
        if exponent < fraction.len() {
            assert(moved.integer + behind =~= whole);
        } else {
            let beyond = (exponent - fraction.len()) as nat;
            assert(moved.integer + behind =~= whole + zeros(beyond));
            lemma_zeros_behind_digits(whole, beyond);
        }
    } else {
        if -exponent < integer.len() {
            assert(moved.integer + behind =~= whole);
        } else {
            let gap = (-exponent - integer.len()) as nat;
            assert(moved.integer + behind =~= zeros(gap + 1) + whole);
            lemma_zeros_in_front(gap + 1, whole);
        }
    }
}

/// The parts of a render, where it has them: what [`formatted`] moves the
/// point in.
pub open spec fn parts_of(rendered: Seq<char>, negative: bool) -> Option<RenderParts> {
    match unsigned(completed(rendered), negative) {
        None => None,
        Some(body) => split_render(body),
    }
}

/// No exponent marker is left. The formatted text of a render holds no `e`,
/// unless there was one before the point of the render already.
pub proof fn lemma_formatted_has_no_marker(rendered: Seq<char>, negative: bool)
    requires
        formatted(rendered, negative) is Some,
        !parts_of(rendered, negative).unwrap().integer.contains('e'),
    ensures
        !formatted(rendered, negative).unwrap().contains('e'),
{
    let body = unsigned(completed(rendered), negative).unwrap();
    let parts = split_render(body).unwrap();
    let exponent = exponent_value(parts.exponent).unwrap();
    let point = body.index_of_first('.').unwrap();
    let rest = body.skip(point + 1);
    rest.index_of_first_ensures('e');
    let integer = parts.integer;
    let fraction = parts.fraction;
    assert forall|i: int| 0 <= i < integer.len() implies integer[i] != 'e' by {
        assert(integer.contains(integer[i]));
    }
    assert forall|i: int| 0 <= i < fraction.len() implies fraction[i] != 'e' by {
        assert(fraction[i] == rest[i]);
    }
    let text = formatted(rendered, negative).unwrap();
    assert forall|i: int| 0 <= i < text.len() implies text[i] != 'e' by {
        let moved = positional(integer, fraction, exponent);
        let prefix = if negative {
            seq!['-']
        } else {
            Seq::<char>::empty()
        };
        assert(text == prefix + moved.text());
        if i >= prefix.len() {
            assert(text[i] == moved.text()[i - prefix.len()]);
        }
    }
}

/// The sign that a render carries is not written. For a value that is not
/// below zero, a render with `-` in front gives the text of the render
/// without it: a zero shows no sign, whatever its sign bit.
pub proof fn lemma_sign_of_render_is_dropped(rendered: Seq<char>)
    requires
        rendered.len() == 0 || rendered[0] != '-',
    ensures
        formatted(seq!['-'] + rendered, false) == formatted(rendered, false),
{
    let signed = seq!['-'] + rendered;
    assert(signed.contains('.') <==> rendered.contains('.')) by {
        if rendered.contains('.') {
            let i = choose|i: int| 0 <= i < rendered.len() && rendered[i] == '.';
            assert(signed[i + 1] == '.');
        }
        if signed.contains('.') {
            let i = choose|i: int| 0 <= i < signed.len() && signed[i] == '.';
            assert(rendered[i - 1] == '.');
        }
    }
    let pointed = if rendered.contains('.') {
        rendered
    } else {
        rendered + seq!['.', '0']
    };
    let signed_pointed = if signed.contains('.') {
        signed
    } else {
        signed + seq!['.', '0']
    };
    assert(signed_pointed =~= seq!['-'] + pointed);
    assert(signed_pointed.contains('e') <==> pointed.contains('e')) by {
        if pointed.contains('e') {
            let i = choose|i: int| 0 <= i < pointed.len() && pointed[i] == 'e';
            assert(signed_pointed[i + 1] == 'e');
        }
        if signed_pointed.contains('e') {
            let i = choose|i: int| 0 <= i < signed_pointed.len() && signed_pointed[i] == 'e';
            assert(pointed[i - 1] == 'e');
        }
    }
    assert(completed(signed) =~= seq!['-'] + completed(rendered));
    assert(completed(signed).drop_first() =~= completed(rendered));
    assert(completed(rendered)[0] != '-');
}

} // verus!

//! One line of text for a complex value.
//!
//! Each component is written in positional notation and loses its
//! insignificant trailing zeros; the two texts are then put together, the
//! imaginary one marked with `i`.

use crate::calculator::Calculator;
use crate::decimal::{formatted, lemma_sign_of_render_is_dropped, zeros, MalformedRender};
use crate::value::{ComplexModel, ComplexValue, FloatModel, MagnitudeModel};
use regex::Regex;
use vstd::prelude::*;
use vstd::string::*;

verus! {

/// The texts of strings, in their order.
pub open spec fn texts(strings: Seq<String>) -> Seq<Seq<char>> {
    strings.map_values(|string: String| string@)
}

/// The text without the zeros at its end.
pub open spec fn without_trailing_zeros(text: Seq<char>) -> Seq<char>
    decreases text.len(),
{
    if text.len() > 0 && text.last() == '0' {
        without_trailing_zeros(text.drop_last())
    } else {
        text
    }
}

/// The text without the zeros at its end and without the point that they
/// leave bare. At most one point is taken away.
pub open spec fn trimmed(text: Seq<char>) -> Seq<char> {
    let kept = without_trailing_zeros(text);
    if kept.len() > 0 && kept.last() == '.' {
        kept.drop_last()
    } else {
        kept
    }
}

/// `regex::Regex::new`, then `Regex::replace` with the compiled pattern.
///
/// The contract speaks of one pattern only, `\.?0*$`, replaced by the empty
/// text. `replace` rewrites the leftmost match. This pattern matches from a
/// place on exactly when the rest of the text is an optional point followed
/// by zeros only, so the leftmost such place is where the trailing zeros
/// begin, or one character earlier where a point stands there. What is in
/// front of that place is handed back. The pattern is well-formed, so `new`
/// does not fail on it.
#[verifier::external_body]
fn replace_first(pattern: &str, text: &str, replacement: &str) -> (replaced: String)
    requires
        pattern@ == "\\.?0*$"@,
        replacement@.len() == 0,
    ensures
        replaced@ == trimmed(text@),
{
    Regex::new(pattern).expect("a well-formed pattern").replace(text, replacement).into_owned()
}

/// Takes the trailing zeros off a text, and the point that they leave bare.
pub fn trim(text: &str) -> (kept: String)
    ensures
        kept@ == trimmed(text@),
{
    proof {
        reveal_strlit("");
    }
    replace_first("\\.?0*$", text, "")
}

/// Whether the absolute value is exactly one.
pub open spec fn is_unit(magnitude: MagnitudeModel) -> bool {
    magnitude == (MagnitudeModel::Finite { significand: 1, exponent: 0 })
}

/// The line for a value whose components have the texts `re_text` and
/// `im_text`. A zero imaginary part is left out, and so is a zero real part
/// beside a non-zero imaginary part. An imaginary part of absolute value one
/// is written as its sign alone.
pub open spec fn composed(value: ComplexModel, re_text: Seq<char>, im_text: Seq<char>) -> Seq<
    char,
> {
    if value.im.magnitude is Zero {
        re_text
    } else {
        let front = if value.re.magnitude is Zero {
            Seq::<char>::empty()
        } else {
            re_text + seq![' ', '+', ' ']
        };
        let coefficient = if is_unit(value.im.magnitude) {
            if value.im.negative {
                seq!['-']
            } else {
                Seq::<char>::empty()
            }
        } else {
            im_text
        };
        front + coefficient + seq!['i']
    }
}

/// The line for a value whose components were rendered as `re_render` and
/// `im_render`, or `None` where one of the two renders is malformed. Each
/// component carries a `-` exactly where it is negative; a zero carries
/// none, whatever its sign bit.
pub open spec fn displayed(value: ComplexModel, re_render: Seq<char>, im_render: Seq<char>) -> Option<
    Seq<char>,
> {
    match (
        formatted(re_render, value.re.below_zero()),
        formatted(im_render, value.im.below_zero()),
    ) {
        (Some(re_text), Some(im_text)) => Some(
            composed(value, trimmed(re_text), trimmed(im_text)),
        ),
        _ => None,
    }
}

/// Puts the texts of the two components of `value` together into one line.
pub fn compose(value: &ComplexValue, re_text: &str, im_text: &str) -> (line: String)
    ensures
        line@ == composed(value@, re_text@, im_text@),
{
    if value.im.is_zero() {
        return String::from_str(re_text);
    }
    proof {
        reveal_strlit("");
        reveal_strlit(" + ");
        reveal_strlit("-");
        reveal_strlit("i");
    }
    let mut line = if value.re.is_zero() {
        String::from_str("")
    } else {
        let mut front = String::from_str(re_text);
        front.append(" + ");
        front
    };
    let ghost front = line@;
    assert(front =~= if value@.re.magnitude is Zero {
        Seq::<char>::empty()
    } else {
        re_text@ + seq![' ', '+', ' ']
    });
    if value.im.is_unit() {
        if value.im.is_sign_negative() {
            line.append("-");
        }
    } else {
        line.append(im_text);
    }
    line.append("i");
    assert(line@ =~= composed(value@, re_text@, im_text@));
    line
}

/// The line for `value`, from the renders of its two components. Each
/// render is written in positional notation, with `-` in front where its
/// component is negative, and trimmed; then the two are put together.
pub fn display(value: &ComplexValue, re_render: &str, im_render: &str) -> (line: Result<
    String,
    MalformedRender,
>)
    ensures
        match line {
            Ok(text) => displayed(value@, re_render@, im_render@) == Some(text@),
            Err(_) => displayed(value@, re_render@, im_render@) is None,
        },
{
    let re_text = match Calculator::format_float(re_render, value.re.is_negative()) {
        Ok(text) => text,
        Err(error) => {
            return Err(error);
        },
    };
    let im_text = match Calculator::format_float(im_render, value.im.is_negative()) {
        Ok(text) => text,
        Err(error) => {
            return Err(error);
        },
    };
    let re_kept = trim(re_text.as_str());
    let im_kept = trim(im_text.as_str());
    Ok(compose(value, re_kept.as_str(), im_kept.as_str()))
}

/// Trimming takes nothing away but zeros and at most one point in front of
/// them: the text is what is kept, then that point if one was taken, then a
/// run of zeros.
pub proof fn lemma_trimmed_drops_zeros_and_point(text: Seq<char>)
    ensures
        ({
            let kept = trimmed(text);
            let bare = without_trailing_zeros(text);
            let dropped_zeros = (text.len() - bare.len()) as nat;
            &&& bare.len() <= text.len()
            &&& kept.len() <= bare.len() <= kept.len() + 1
            &&& text == bare + zeros(dropped_zeros)
            &&& bare == if kept.len() < bare.len() {
                kept + seq!['.']
            } else {
                kept
            }
        }),
    decreases text.len(),
{
    let bare = without_trailing_zeros(text);
    if text.len() > 0 && text.last() == '0' {
        let shorter = text.drop_last();
        lemma_trimmed_drops_zeros_and_point(shorter);
        let n = (shorter.len() - bare.len()) as nat;
        assert(text =~= shorter + seq!['0']);
        assert(zeros(n + 1) =~= zeros(n) + seq!['0']);
        assert(text =~= bare + zeros(n + 1));
    } else {
        assert(text =~= bare + zeros(0));
    }
    let kept = trimmed(text);
    if kept.len() < bare.len() {
        assert(bare =~= kept + seq!['.']);
    }
}

/// The number with its sign bit set as `negative` says.
pub open spec fn with_sign(number: FloatModel, negative: bool) -> FloatModel {
    FloatModel { precision: number.precision, negative, magnitude: number.magnitude }
}

/// A zero shows no sign. Where a component is zero, the line is the same
/// for either sign bit of that component, and the same whether or not its
/// render has a `-` in front.
pub proof fn lemma_zero_shows_no_sign(
    value: ComplexModel,
    negative: bool,
    re_render: Seq<char>,
    im_render: Seq<char>,
)
    requires
        re_render.len() == 0 || re_render[0] != '-',
        im_render.len() == 0 || im_render[0] != '-',
    ensures
        value.re.magnitude is Zero ==> {
            let other = ComplexModel { re: with_sign(value.re, negative), im: value.im };
            &&& displayed(other, re_render, im_render) == displayed(value, re_render, im_render)
            &&& displayed(value, seq!['-'] + re_render, im_render) == displayed(
                value,
                re_render,
                im_render,
            )
        },
        value.im.magnitude is Zero ==> {
            let other = ComplexModel { re: value.re, im: with_sign(value.im, negative) };
            &&& displayed(other, re_render, im_render) == displayed(value, re_render, im_render)
            &&& displayed(value, re_render, seq!['-'] + im_render) == displayed(
                value,
                re_render,
                im_render,
            )
        },
{
    lemma_sign_of_render_is_dropped(re_render);
    lemma_sign_of_render_is_dropped(im_render);
}

} // verus!

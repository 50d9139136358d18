//! The evaluation stack and the operators that work on it.
//!
//! The calculator keeps the values and decides what is to be computed; it
//! does not compute. Applying an operator takes its operands off the stack
//! and hands back an [`Evaluation`], the order for the arithmetic. Whoever
//! carries the order out pushes the result.

use crate::decimal::{
    complete, formatted, parse_exponent, reposition, split, strip_sign, MalformedRender,
};
use crate::display::{display, displayed, texts};
use crate::value::{ComplexModel, ComplexValue, FloatModel, FloatValue};
use std::collections::VecDeque;
use vstd::prelude::*;
use vstd::string::*;

verus! {

/// The operators of the calculator.
#[derive(Debug, Clone, Copy, PartialEq, Eq)]
pub enum Op {
    ADD,
    SUBTRACT,
    MULTIPLY,
    DIVIDE,
    EXP,
    SIN,
    COS,
    TAN,
    COT,
    ASIN,
    ACOS,
    ATAN,
    SEC,
    CSC,
}

/// An operator found fewer values on the stack than it consumes.
#[derive(Debug, PartialEq, Eq)]
pub struct InsufficientOperands;

/// A function of complex arithmetic applied to its arguments. In the
/// functions of two arguments the first is the value that was pushed
/// earlier.
#[derive(Debug, PartialEq, Eq)]
pub enum Primary {
    Sum(ComplexValue, ComplexValue),
    Difference(ComplexValue, ComplexValue),
    Product(ComplexValue, ComplexValue),
    Quotient(ComplexValue, ComplexValue),
    /// The first argument raised to the power of the second, a real number.
    Power(ComplexValue, FloatValue),
    Sine(ComplexValue),
    Cosine(ComplexValue),
    Tangent(ComplexValue),
    ArcSine(ComplexValue),
    ArcCosine(ComplexValue),
    ArcTangent(ComplexValue),
}

/// What an operator asks of the arithmetic: the value of `primary` or, where
/// `reciprocal` is set, one divided by that value.
#[derive(Debug, PartialEq, Eq)]
pub struct Evaluation {
    pub primary: Primary,
    pub reciprocal: bool,
}

/// A [`Primary`] as mathematics sees it.
pub enum PrimaryModel {
    Sum(ComplexModel, ComplexModel),
    Difference(ComplexModel, ComplexModel),
    Product(ComplexModel, ComplexModel),
    Quotient(ComplexModel, ComplexModel),
    Power(ComplexModel, FloatModel),
    Sine(ComplexModel),
    Cosine(ComplexModel),
    Tangent(ComplexModel),
    ArcSine(ComplexModel),
    ArcCosine(ComplexModel),
    ArcTangent(ComplexModel),
}

/// An [`Evaluation`] as mathematics sees it.
pub struct EvaluationModel {
    pub primary: PrimaryModel,
    pub reciprocal: bool,
}

impl View for Primary {
    type V = PrimaryModel;

    open spec fn view(&self) -> PrimaryModel {
        match self {
            Primary::Sum(a, b) => PrimaryModel::Sum(a@, b@),
            Primary::Difference(a, b) => PrimaryModel::Difference(a@, b@),
            Primary::Product(a, b) => PrimaryModel::Product(a@, b@),
            Primary::Quotient(a, b) => PrimaryModel::Quotient(a@, b@),
            Primary::Power(a, e) => PrimaryModel::Power(a@, e@),
            Primary::Sine(b) => PrimaryModel::Sine(b@),
            Primary::Cosine(b) => PrimaryModel::Cosine(b@),
            Primary::Tangent(b) => PrimaryModel::Tangent(b@),
            Primary::ArcSine(b) => PrimaryModel::ArcSine(b@),
            Primary::ArcCosine(b) => PrimaryModel::ArcCosine(b@),
            Primary::ArcTangent(b) => PrimaryModel::ArcTangent(b@),
        }
    }
}

impl View for Evaluation {
    type V = EvaluationModel;

    open spec fn view(&self) -> EvaluationModel {
        EvaluationModel { primary: self.primary@, reciprocal: self.reciprocal }
    }
}

impl Op {
    /// The number of operands that the operator consumes.
    pub open spec fn spec_arity(&self) -> usize {
        match self {
            Op::ADD | Op::SUBTRACT | Op::MULTIPLY | Op::DIVIDE | Op::EXP => 2,
            _ => 1,
        }
    }

    /// What the operator asks of the arithmetic when it is applied to a
    /// stack that holds its operands. The last value of the stack is the
    /// second operand of an operator of two, and the only one of an operator
    /// of one. Exponentiation takes only the real part of its second
    /// operand. Cotangent, secant and cosecant are the reciprocals of
    /// tangent, cosine and sine.
    pub open spec fn evaluation(&self, stack: Seq<ComplexModel>) -> EvaluationModel
        recommends
            stack.len() >= self.spec_arity(),
    {
        let b = stack[stack.len() - 1];
        let a = stack[stack.len() - 2];
        match self {
            Op::ADD => EvaluationModel { primary: PrimaryModel::Sum(a, b), reciprocal: false },
            Op::SUBTRACT => EvaluationModel {
                primary: PrimaryModel::Difference(a, b),
                reciprocal: false,
            },
            Op::MULTIPLY => EvaluationModel {
                primary: PrimaryModel::Product(a, b),
                reciprocal: false,
            },
            Op::DIVIDE => EvaluationModel {
                primary: PrimaryModel::Quotient(a, b),
                reciprocal: false,
            },
            Op::EXP => EvaluationModel { primary: PrimaryModel::Power(a, b.re), reciprocal: false },
            Op::SIN => EvaluationModel { primary: PrimaryModel::Sine(b), reciprocal: false },
            Op::COS => EvaluationModel { primary: PrimaryModel::Cosine(b), reciprocal: false },
            Op::TAN => EvaluationModel { primary: PrimaryModel::Tangent(b), reciprocal: false },
            Op::COT => EvaluationModel { primary: PrimaryModel::Tangent(b), reciprocal: true },
            Op::ASIN => EvaluationModel { primary: PrimaryModel::ArcSine(b), reciprocal: false },
            Op::ACOS => EvaluationModel { primary: PrimaryModel::ArcCosine(b), reciprocal: false },
            Op::ATAN => EvaluationModel {
                primary: PrimaryModel::ArcTangent(b),
                reciprocal: false,
            },
            Op::SEC => EvaluationModel { primary: PrimaryModel::Cosine(b), reciprocal: true },
            Op::CSC => EvaluationModel { primary: PrimaryModel::Sine(b), reciprocal: true },
        }
    }

    /// The number of operands that the operator consumes.
    #[verifier::when_used_as_spec(spec_arity)]
    pub fn arity(&self) -> (count: usize)
        ensures
            count == self.spec_arity(),
    {
        match self {
            Op::ADD | Op::SUBTRACT | Op::MULTIPLY | Op::DIVIDE | Op::EXP => 2,
            _ => 1,
        }
    }
}

/// The models of the values of a stack, bottom first.
pub open spec fn models(stack: Seq<ComplexValue>) -> Seq<ComplexModel> {
    stack.map_values(|value: ComplexValue| value@)
}

impl Op {
    /// Takes the operands of the operator off the stack and says what is to
    /// be computed from them. A stack with too few values is left as it is.
    fn invoke(&self, stack: &mut VecDeque<ComplexValue>) -> (taken: Option<Evaluation>)
        ensures
            match taken {
                Some(evaluation) => {
                    &&& old(stack)@.len() >= self.spec_arity()
                    &&& final(stack)@ == old(stack)@.take(old(stack)@.len() - self.spec_arity())
                    &&& evaluation@ == self.evaluation(models(old(stack)@))
                },
                None => {
                    &&& old(stack)@.len() < self.spec_arity()
                    &&& final(stack)@ == old(stack)@
                },
            },
    {
        if stack.len() < self.arity() {
            return None;
        }
        let b = match stack.pop_back() {
            Some(b) => b,
            None => {
                return None;
            },
        };
        let evaluation = match self {
            Op::SIN => Some(Evaluation { primary: Primary::Sine(b), reciprocal: false }),
            Op::COS => Some(Evaluation { primary: Primary::Cosine(b), reciprocal: false }),
            Op::TAN => Some(Evaluation { primary: Primary::Tangent(b), reciprocal: false }),
            Op::COT => Some(Evaluation { primary: Primary::Tangent(b), reciprocal: true }),
            Op::ASIN => Some(Evaluation { primary: Primary::ArcSine(b), reciprocal: false }),
            Op::ACOS => Some(Evaluation { primary: Primary::ArcCosine(b), reciprocal: false }),
            Op::ATAN => Some(Evaluation { primary: Primary::ArcTangent(b), reciprocal: false }),
            Op::SEC => Some(Evaluation { primary: Primary::Cosine(b), reciprocal: true }),
            Op::CSC => Some(Evaluation { primary: Primary::Sine(b), reciprocal: true }),
            _ => {
                let a = match stack.pop_back() {
                    Some(a) => a,
                    None => {
                        return None;
                    },
                };
                let primary = match self {
                    Op::ADD => Primary::Sum(a, b),
                    Op::SUBTRACT => Primary::Difference(a, b),
                    Op::MULTIPLY => Primary::Product(a, b),
                    Op::DIVIDE => Primary::Quotient(a, b),
                    _ => Primary::Power(a, b.re),
                };
                Some(Evaluation { primary, reciprocal: false })
            },
        };
        evaluation
    }
}

/// The stack without its top value; an empty stack as it is.
pub open spec fn dropped(stack: Seq<ComplexModel>) -> Seq<ComplexModel> {
    if stack.len() > 0 {
        stack.drop_last()
    } else {
        stack
    }
}

/// The stack with its top value once more on top; an empty stack as it is.
pub open spec fn duplicated(stack: Seq<ComplexModel>) -> Seq<ComplexModel> {
    if stack.len() > 0 {
        stack.push(stack.last())
    } else {
        stack
    }
}

/// The stack with its two top values exchanged; a stack of fewer than two
/// values as it is.
pub open spec fn swapped(stack: Seq<ComplexModel>) -> Seq<ComplexModel> {
    if stack.len() >= 2 {
        let n = stack.len() as int;
        stack.update(n - 1, stack[n - 2]).update(n - 2, stack[n - 1])
    } else {
        stack
    }
}

/// The renders of the two components of one value.
#[derive(Debug, PartialEq, Eq)]
pub struct Rendering {
    pub re: String,
    pub im: String,
}

/// The line of the value at `index`, from the render at the same index.
pub open spec fn line_of(stack: Seq<ComplexModel>, renders: Seq<Rendering>, index: int) -> Option<
    Seq<char>,
> {
    displayed(stack[index], renders[index].re@, renders[index].im@)
}

/// The lines of all values of the stack, bottom first, or `None` where the
/// renders are not one for each value or one of them is malformed.
pub open spec fn lines_of(stack: Seq<ComplexModel>, renders: Seq<Rendering>) -> Option<
    Seq<Seq<char>>,
> {
    if renders.len() == stack.len() && forall|i: int|
        0 <= i < stack.len() ==> (#[trigger] line_of(stack, renders, i)) is Some {
        Some(Seq::new(stack.len(), |i: int| line_of(stack, renders, i).unwrap()))
    } else {
        None
    }
}

/// The calculator: a stack of complex values, the last one on top.
pub struct Calculator {
    stack: VecDeque<ComplexValue>,
}

impl View for Calculator {
    type V = Seq<ComplexModel>;

    /// The values on the stack, bottom first.
    closed spec fn view(&self) -> Seq<ComplexModel> {
        models(self.stack@)
    }
}

impl Calculator {
    /// A calculator with an empty stack.
    pub fn new() -> (calculator: Calculator)
        ensures
            calculator@ == Seq::<ComplexModel>::empty(),
    {
        let calculator = Calculator { stack: VecDeque::new() };
        assert(calculator@ =~= Seq::<ComplexModel>::empty());
        calculator
    }

    /// The number of values on the stack.
    pub fn len(&self) -> (count: usize)
        ensures
            count == self@.len(),
    {
        self.stack.len()
    }

    /// The value at `index`, counted from the bottom of the stack.
    pub fn get(&self, index: usize) -> (value: Option<&ComplexValue>)
        ensures
            match value {
                Some(found) => index < self@.len() && found@ == self@[index as int],
                None => index >= self@.len(),
            },
    {
        if index < self.stack.len() {
            Some(&self.stack[index])
        } else {
            None
        }
    }

    /// Puts `n` on top of the stack.
    pub fn push(&mut self, n: ComplexValue)
        ensures
            final(self)@ == old(self)@.push(n@),
    {
        self.stack.push_back(n);
        assert(self@ =~= old(self)@.push(n@));
    }

    /// Takes the top value off the stack and hands it back, or `None`
    /// where the stack is empty.
    pub fn pop(&mut self) -> (top: Option<ComplexValue>)
        ensures
            final(self)@ == dropped(old(self)@),
            match top {
                Some(value) => old(self)@.len() > 0 && value@ == old(self)@.last(),
                None => old(self)@.len() == 0,
            },
    {
        let top = self.stack.pop_back();
        assert(self@ =~= dropped(old(self)@));
        top
    }

    /// A copy of the top value, or `None` where the stack is empty. The
    /// stack stays as it is.
    pub fn peek_clone(&self) -> (top: Option<ComplexValue>)
        ensures
            match top {
                Some(value) => self@.len() > 0 && value@ == self@.last(),
                None => self@.len() == 0,
            },
    {
        let n = self.stack.len();
        if n == 0 {
            None
        } else {
            Some(self.stack[n - 1].clone())
        }
    }

    /// Takes the top value off the stack. An empty stack stays empty.
    pub fn drop(&mut self)
        ensures
            final(self)@ == dropped(old(self)@),
            old(self)@.len() - 1 <= final(self)@.len() <= old(self)@.len(),
    {
        let _ = self.pop();
    }

    /// Puts a copy of the top value on the stack. An empty stack stays
    /// empty.
    pub fn dup(&mut self)
        ensures
            final(self)@ == duplicated(old(self)@),
            old(self)@.len() > 0 ==> {
                &&& final(self)@.len() == old(self)@.len() + 1
                &&& final(self)@.last() == old(self)@.last()
            },
            old(self)@.len() == 0 ==> final(self)@.len() == 0,
    {
        match self.peek_clone() {
            Some(copy) => {
                self.push(copy);
            },
            None => {},
        }
    }

    /// Exchanges the two values on top of the stack. A stack with fewer
    /// than two values is left as it is.
    pub fn swap(&mut self)
        ensures
            final(self)@ == swapped(old(self)@),
            final(self)@.len() == old(self)@.len(),
            final(self)@.to_multiset() == old(self)@.to_multiset(),
            old(self)@.len() >= 2 ==> {
                let n = old(self)@.len() as int;
                &&& final(self)@[n - 1] == old(self)@[n - 2]
                &&& final(self)@[n - 2] == old(self)@[n - 1]
                &&& final(self)@.take(n - 2) == old(self)@.take(n - 2)
            },
            old(self)@.len() < 2 ==> final(self)@ == old(self)@,
    {
        proof {
            lemma_swapped_keeps_values(old(self)@);
        }
        if self.stack.len() < 2 {
            return ;
        }
        let first = self.stack.pop_back();
        let second = self.stack.pop_back();
        match (first, second) {
            (Some(a), Some(b)) => {
                self.stack.push_back(a);
                self.stack.push_back(b);
                assert(self@ =~= swapped(old(self)@));
            },
            _ => {},
        }
    }

    /// Applies an operator: takes its operands off the stack and hands back
    /// what is to be computed from them. The result of that computation
    /// belongs on the stack; [`Calculator::push`] puts it there. Where the
    /// stack holds fewer values than the operator consumes, it is left as it
    /// is.
    pub fn op(&mut self, op: Op) -> (outcome: Result<Evaluation, InsufficientOperands>)
        ensures
            match outcome {
                Ok(evaluation) => {
                    &&& old(self)@.len() >= op.spec_arity()
                    &&& final(self)@ == old(self)@.take(old(self)@.len() - op.spec_arity())
                    &&& evaluation@ == op.evaluation(old(self)@)
                },
                Err(_) => {
                    &&& old(self)@.len() < op.spec_arity()
                    &&& final(self)@ == old(self)@
                },
            },
    {
        match op.invoke(&mut self.stack) {
            Some(evaluation) => {
                assert(self@ =~= old(self)@.take(old(self)@.len() - op.spec_arity()));
                Ok(evaluation)
            },
            None => Err(InsufficientOperands),
        }
    }

    /// Writes a rendered component in positional notation. `rendered` is
    /// the component in significant digits, with or without a point and an
    /// exponent; `negative` says whether the component is below zero, which
    /// a zero with its sign bit set is not. The result has no exponent
    /// marker. It has a leading `-` exactly where `negative` is set: the
    /// `-` of the render itself is taken off and not written.
    pub fn format_float(rendered: &str, negative: bool) -> (text: Result<String, MalformedRender>)
        ensures
            match text {
                Ok(positional) => formatted(rendered@, negative) == Some(positional@),
                Err(_) => formatted(rendered@, negative) is None,
            },
    {
        let sig = complete(rendered);
        let body = match strip_sign(sig.as_str(), negative) {
            Some(body) => body,
            None => {
                return Err(MalformedRender);
            },
        };
        let (integer, fraction, exponent) = match split(body) {
            Some(parts) => parts,
            None => {
                return Err(MalformedRender);
            },
        };
        let shift = match parse_exponent(exponent) {
            Some(shift) => shift,
            None => {
                return Err(MalformedRender);
            },
        };
        let digits = reposition(integer, fraction, shift);
        proof {
            reveal_strlit("-");
            reveal_strlit("");
        }
        let mut text = String::from_str(if negative {
            "-"
        } else {
            ""
        });
        text.append(digits.as_str());
        assert(text@ =~= formatted(rendered@, negative).unwrap());
        Ok(text)
    }

    /// The lines of all values on the stack, bottom first. `renders` holds
    /// one pair of renders for each value, in the same order.
    pub fn render_all(&self, renders: &Vec<Rendering>) -> (lines: Result<
        Vec<String>,
        MalformedRender,
    >)
        ensures
            match lines {
                Ok(written) => lines_of(self@, renders@) == Some(texts(written@)),
                Err(_) => lines_of(self@, renders@) is None,
            },
    {
        let n = self.stack.len();
        if renders.len() != n {
            return Err(MalformedRender);
        }
        let mut written: Vec<String> = Vec::new();
        let mut i: usize = 0;
        while i < n
            invariant
                i <= n,
                n == self@.len(),
                n == self.stack@.len(),
                n == renders@.len(),
                written@.len() == i,
                forall|j: int|
                    0 <= j < i ==> line_of(self@, renders@, j) == Some(#[trigger] written@[j]@),
            decreases n - i,
        {
            let rendering = &renders[i];
            match display(&self.stack[i], rendering.re.as_str(), rendering.im.as_str()) {
                Ok(line) => {
                    written.push(line);
                },
                Err(error) => {
                    assert(line_of(self@, renders@, i as int) is None);
                    return Err(error);
                },
            }
            i += 1;
        }
        assert forall|j: int| 0 <= j < n implies (#[trigger] line_of(
            self@,
            renders@,
            j,
        )) is Some by {
            assert(line_of(self@, renders@, j) == Some(written@[j]@));
        }
        assert(texts(written@) =~= lines_of(self@, renders@).unwrap());
        Ok(written)
    }
}

/// Exchanging the two top values keeps the values of the stack and how
/// often each occurs.
pub proof fn lemma_swapped_keeps_values(stack: Seq<ComplexModel>)
    ensures
        swapped(stack).len() == stack.len(),
        swapped(stack).to_multiset() == stack.to_multiset(),
{
    if stack.len() >= 2 {
        let n = stack.len() as int;
        let below = stack.take(n - 2);
        let a = seq![stack[n - 2]];
        let b = seq![stack[n - 1]];
        assert(stack =~= below + (a + b));
        assert(swapped(stack) =~= below + (b + a));
        vstd::seq_lib::lemma_multiset_commutative(below, a + b);
        vstd::seq_lib::lemma_multiset_commutative(below, b + a);
        vstd::seq_lib::lemma_multiset_commutative(a, b);
        vstd::seq_lib::lemma_multiset_commutative(b, a);
        assert((a + b).to_multiset() =~= (b + a).to_multiset());
    }
}

/// Adding and then subtracting the same value asks for the sum of the two
/// values and then for the difference of what was pushed as the sum and
/// that value; the stack below is left as it was both times. Whether the
/// difference is the first value again rests with the arithmetic.
pub proof fn lemma_add_then_subtract_orders(
    below: Seq<ComplexModel>,
    a: ComplexModel,
    b: ComplexModel,
    sum: ComplexModel,
)
    ensures
        Op::ADD.evaluation(below.push(a).push(b)) == (EvaluationModel {
            primary: PrimaryModel::Sum(a, b),
            reciprocal: false,
        }),
        Op::SUBTRACT.evaluation(below.push(sum).push(b)) == (EvaluationModel {
            primary: PrimaryModel::Difference(sum, b),
            reciprocal: false,
        }),
        below.push(a).push(b).take(below.len() as int) == below,
        below.push(sum).push(b).take(below.len() as int) == below,
{
    assert(below.push(a).push(b).take(below.len() as int) =~= below);
    assert(below.push(sum).push(b).take(below.len() as int) =~= below);
}

} // verus!

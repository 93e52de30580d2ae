//! The calculator: a display string edited character by character, and a
//! one-operand-deep accumulator.  Pressing an operator first evaluates the
//! pending operation (under the *previous* operator) against the stored
//! operand, then stores the new operator.  Dividing by zero yields zero
//! when chaining to another operator, but writes `Error` on the display
//! when finalised with equals.

use crate::digits::{chars_string, digit_char, digit_to_char};
use crate::rat::{format_number, parse_chars, parse_number, rat_digits, Rat};
use vstd::prelude::*;

verus! {

/// A binary operator key.
#[derive(Clone, Copy, Debug, PartialEq, Eq, Structural)]
pub enum BinOp {
    Add,
    Subtract,
    Multiply,
    Divide,
}

/// One calculator action: every button and accepted key maps to one of
/// these, consumed by [`Calculator::handle_key`].
#[derive(Clone, Copy, Debug, PartialEq, Eq, Structural)]
pub enum Key {
    Digit(u8),
    Operator(BinOp),
    Equals,
    Dot,
    Clear,
    Negate,
    Percent,
}

pub struct Calculator {
    /// The characters currently shown.
    pub display: Vec<char>,
    /// The stored operand awaiting the pending operator.
    pub previous_value: Rat,
    /// The pending operator, applied when the next operator arrives.
    pub operation: Option<BinOp>,
    /// When set, the next digit starts a new number instead of appending.
    pub waiting_for_operand: bool,
}

/// The value a display reads as; a display that cannot be read counts as
/// zero.
pub open spec fn display_value(s: Seq<char>) -> Rat {
    match parse_chars(s) {
        Option::Some(r) => r,
        Option::None => Rat::zero(),
    }
}

/// The result of applying the pending operator to the stored operand and
/// the freshly read input; division by zero yields zero here.
pub open spec fn eval_op(op: Option<BinOp>, prev: Rat, input: Rat) -> Rat {
    match op {
        Option::None => input,
        Option::Some(BinOp::Add) => Rat::add_spec(prev, input),
        Option::Some(BinOp::Subtract) => Rat::sub_spec(prev, input),
        Option::Some(BinOp::Multiply) => Rat::mul_spec(prev, input),
        Option::Some(BinOp::Divide) => if input.num == 0 {
            Rat::zero()
        } else {
            Rat::div_spec(prev, input)
        },
    }
}

/// What a digit press does: starts a new number when waiting for an
/// operand or showing a bare zero, appends otherwise.
pub open spec fn digit_step(pre: Calculator, post: Calculator, digit: nat) -> bool {
    &&& post.display@ == (if pre.waiting_for_operand || pre.display@ =~= seq!['0'] {
        seq![digit_char(digit)]
    } else {
        pre.display@.push(digit_char(digit))
    })
    &&& post.previous_value == pre.previous_value
    &&& post.operation == pre.operation
    &&& post.waiting_for_operand == false
}

/// What the decimal-point press does: starts `0.` when waiting for an
/// operand, appends one point at most, and never a second one.
pub open spec fn dot_step(pre: Calculator, post: Calculator) -> bool {
    &&& post.display@ == (if pre.waiting_for_operand {
        seq!['0', '.']
    } else if !pre.display@.contains('.') {
        pre.display@.push('.')
    } else {
        pre.display@
    })
    &&& post.previous_value == pre.previous_value
    &&& post.operation == pre.operation
    &&& post.waiting_for_operand == false
}

/// What clearing does: display `0`, no stored operand, no pending
/// operator, waiting for an operand.
pub open spec fn clear_step(post: Calculator) -> bool {
    &&& post.display@ =~= seq!['0']
    &&& post.previous_value == Rat::zero()
    &&& post.operation is None
    &&& post.waiting_for_operand == true
}

/// What an operator press does: with no operand composed it only stores
/// the operator; otherwise it evaluates the pending operation, shows and
/// stores the result, stores the new operator, and waits for an operand.
pub open spec fn op_step(pre: Calculator, post: Calculator, next: BinOp) -> bool {
    if pre.waiting_for_operand {
        &&& post.display == pre.display
        &&& post.previous_value == pre.previous_value
        &&& post.operation == Some(next)
        &&& post.waiting_for_operand == true
    } else {
        let result = eval_op(pre.operation, pre.previous_value, display_value(pre.display@));
        &&& post.display@ == rat_digits(result.num as int, result.den as int)
        &&& post.previous_value == result
        &&& post.operation == Some(next)
        &&& post.waiting_for_operand == true
    }
}

/// What the equals press does: a bare division by zero writes `Error` and
/// changes nothing else; otherwise it evaluates the pending operation,
/// shows the result, and resets operand and operator.
pub open spec fn equals_step(pre: Calculator, post: Calculator) -> bool {
    let input = display_value(pre.display@);
    if pre.operation == Some(BinOp::Divide) && input.num == 0 {
        &&& post.display@ == "Error"@
        &&& post.previous_value == pre.previous_value
        &&& post.operation == pre.operation
        &&& post.waiting_for_operand == pre.waiting_for_operand
    } else {
        let result = eval_op(pre.operation, pre.previous_value, input);
        &&& post.display@ == rat_digits(result.num as int, result.den as int)
        &&& post.previous_value == Rat::zero()
        &&& post.operation is None
        &&& post.waiting_for_operand == true
    }
}

/// What the sign press does: rewrites a readable display with the sign
/// flipped; an unreadable display is left alone.
pub open spec fn negate_step(pre: Calculator, post: Calculator) -> bool {
    &&& post.display@ == (match parse_chars(pre.display@) {
        Option::Some(r) => rat_digits(-r.num as int, r.den as int),
        Option::None => pre.display@,
    })
    &&& post.previous_value == pre.previous_value
    &&& post.operation == pre.operation
    &&& post.waiting_for_operand == pre.waiting_for_operand
}

/// What the percent press does: rewrites a readable display divided by
/// one hundred; an unreadable display is left alone.
pub open spec fn percent_step(pre: Calculator, post: Calculator) -> bool {
    &&& post.display@ == (match parse_chars(pre.display@) {
        Option::Some(r) => {
            let result = Rat::div_spec(r, (Rat { num: 100, den: 1 }));
            rat_digits(result.num as int, result.den as int)
        },
        Option::None => pre.display@,
    })
    &&& post.previous_value == pre.previous_value
    &&& post.operation == pre.operation
    &&& post.waiting_for_operand == pre.waiting_for_operand
}

/// What [`Calculator::handle_key`] does for each key.
pub open spec fn key_step(pre: Calculator, post: Calculator, k: Key) -> bool {
    match k {
        Key::Digit(d) => digit_step(pre, post, d as nat),
        Key::Operator(op) => op_step(pre, post, op),
        Key::Equals => equals_step(pre, post),
        Key::Dot => dot_step(pre, post),
        Key::Clear => clear_step(post),
        Key::Negate => negate_step(pre, post),
        Key::Percent => percent_step(pre, post),
    }
}

impl Calculator {
    /// The stored operand is always a canonical rational.
    pub open spec fn wf(self) -> bool {
        self.previous_value.wf()
    }

    /// A fresh calculator: display `0`, nothing stored.
    pub fn new() -> (c: Calculator)
        ensures
            c.wf(),
            clear_step(c),
    {
        let mut d: Vec<char> = Vec::new();
        d.push('0');
        Calculator {
            display: d,
            previous_value: Rat::new_zero(),
            operation: None,
            waiting_for_operand: true,
        }
    }

    /// Enters one digit.
    pub fn input_digit(&mut self, digit: u8)
        requires
            old(self).wf(),
            digit <= 9,
        ensures
            final(self).wf(),
            digit_step(*old(self), *final(self), digit as nat),
    {
        let c: char = digit_to_char(digit as u128);
        if self.waiting_for_operand {
            let mut d: Vec<char> = Vec::new();
            d.push(c);
            self.display = d;
            self.waiting_for_operand = false;
        } else if self.display.len() == 1 && self.display[0] == '0' {
            proof {
                assert(self.display@ =~= seq!['0']);
            }
            let mut d: Vec<char> = Vec::new();
            d.push(c);
            self.display = d;
        } else {
            self.display.push(c);
        }
    }

    /// Enters the decimal point.
    pub fn input_dot(&mut self)
        requires
            old(self).wf(),
        ensures
            final(self).wf(),
            dot_step(*old(self), *final(self)),
    {
        if self.waiting_for_operand {
            let mut d: Vec<char> = Vec::new();
            d.push('0');
            d.push('.');
            self.display = d;
            self.waiting_for_operand = false;
            proof {
                assert(self.display@ =~= seq!['0', '.']);
            }
        } else if !has_dot(&self.display) {
            self.display.push('.');
        }
    }

    /// Clears everything.
    pub fn clear(&mut self)
        ensures
            final(self).wf(),
            clear_step(*final(self)),
    {
        let mut d: Vec<char> = Vec::new();
        d.push('0');
        self.display = d;
        self.previous_value = Rat::new_zero();
        self.operation = None;
        self.waiting_for_operand = true;
    }

    /// Presses an operator key.
    pub fn perform_operation(&mut self, next: BinOp)
        requires
            old(self).wf(),
        ensures
            final(self).wf(),
            op_step(*old(self), *final(self), next),
    {
        if self.waiting_for_operand {
            self.operation = Some(next);
            return ;
        }
        let input: Rat = match parse_number(&self.display) {
            Some(r) => r,
            None => Rat::new_zero(),
        };
        let result: Rat = match self.operation {
            None => input,
            Some(BinOp::Add) => self.previous_value.add(&input),
            Some(BinOp::Subtract) => self.previous_value.sub(&input),
            Some(BinOp::Multiply) => self.previous_value.mul(&input),
            Some(BinOp::Divide) => {
                if input.num != 0 {
                    self.previous_value.div(&input)
                } else {
                    Rat::new_zero()
                }
            },
        };
        self.display = format_number(&result);
        self.previous_value = result;
        self.operation = Some(next);
        self.waiting_for_operand = true;
    }

    /// Presses equals.
    pub fn perform_calculation(&mut self)
        requires
            old(self).wf(),
        ensures
            final(self).wf(),
            equals_step(*old(self), *final(self)),
    {
        let input: Rat = match parse_number(&self.display) {
            Some(r) => r,
            None => Rat::new_zero(),
        };
        let result: Rat = match self.operation {
            None => input,
            Some(BinOp::Add) => self.previous_value.add(&input),
            Some(BinOp::Subtract) => self.previous_value.sub(&input),
            Some(BinOp::Multiply) => self.previous_value.mul(&input),
            Some(BinOp::Divide) => {
                if input.num == 0 {
                    let mut e: Vec<char> = Vec::new();
                    e.push('E');
                    e.push('r');
                    e.push('r');
                    e.push('o');
                    e.push('r');
                    self.display = e;
                    proof {
                        reveal_strlit("Error");
                        assert(self.display@ =~= "Error"@);
                    }
                    return ;
                }
                self.previous_value.div(&input)
            },
        };
        self.display = format_number(&result);
        self.previous_value = Rat::new_zero();
        self.operation = None;
        self.waiting_for_operand = true;
    }

    /// Presses the sign key.
    pub fn negate(&mut self)
        requires
            old(self).wf(),
        ensures
            final(self).wf(),
            negate_step(*old(self), *final(self)),
    {
        match parse_number(&self.display) {
            Some(r) => {
                let flipped = Rat { num: -r.num, den: r.den };
                self.display = format_number(&flipped);
            },
            None => {},
        }
    }

    /// Presses the percent key.
    pub fn percent(&mut self)
        requires
            old(self).wf(),
        ensures
            final(self).wf(),
            percent_step(*old(self), *final(self)),
    {
        match parse_number(&self.display) {
            Some(r) => {
                let hundred = Rat { num: 100, den: 1 };
                proof {
                    crate::rat::lemma_gcd_one();
                }
                let result = r.div(&hundred);
                self.display = format_number(&result);
            },
            None => {},
        }
    }

    /// Consumes one action; the single dispatch point for every button
    /// and accepted key.
    pub fn handle_key(&mut self, k: Key)
        requires
            old(self).wf(),
            k matches Key::Digit(d) ==> d <= 9,
        ensures
            final(self).wf(),
            key_step(*old(self), *final(self), k),
    {
        match k {
            Key::Digit(d) => self.input_digit(d),
            Key::Operator(op) => self.perform_operation(op),
            Key::Equals => self.perform_calculation(),
            Key::Dot => self.input_dot(),
            Key::Clear => self.clear(),
            Key::Negate => self.negate(),
            Key::Percent => self.percent(),
        }
    }

    /// The display as a string.
    pub fn display_string(&self) -> (s: String)
        ensures
            s@ == self.display@,
    {
        chars_string(&self.display)
    }
}

/// Whether the display already holds a decimal point.
fn has_dot(v: &Vec<char>) -> (b: bool)
    ensures
        b == v@.contains('.'),
{
    let mut i: usize = 0;
    while i < v.len()
        invariant
            i <= v@.len(),
            forall|j: int| 0 <= j < i ==> v@[j] != '.',
        decreases v@.len() - i,
    {
        if v[i] == '.' {
            return true;
        }
        i = i + 1;
    }
    false
}

} // verus!

//! The standalone infix-to-postfix expression demo: a predictive parser
//! over single-digit operands joined by `+` and `-`, emitting the
//! expression in postfix order. It shares no code with the block
//! language's lexer and parser.

use vstd::prelude::*;
use vstd::string::*;

use crate::lexer::is_digit;

verus! {

/// A parse failure of the expression demo: a digit operand was demanded
/// at this position and none stood there.
#[derive(Debug, Clone, Copy, PartialEq, Eq, Structural)]
pub struct InfixError {
    pub at: usize,
}

/// The mathematical state of an [`Infix2Suffix`] parser.
pub struct InfixView {
    pub expr: Seq<char>,
    pub lookidx: nat,
    pub output: Seq<char>,
}

/// One operand: a digit at the cursor is emitted and consumed; the
/// third component tells whether one stood there.
pub open spec fn term_step(expr: Seq<char>, i: nat, out: Seq<char>) -> (nat, Seq<char>, bool) {
    if i < expr.len() && is_digit(expr[i as int]) {
        (i + 1, out.push(expr[i as int]), true)
    } else {
        (i, out, false)
    }
}

/// The rest of an expression: as long as `+` or `-` follows, its
/// operand is demanded, and the operand is emitted before the operator.
/// A missing operand stops the parse at the operand's position.
pub open spec fn rest_steps(expr: Seq<char>, i: nat, out: Seq<char>) -> (nat, Seq<char>, bool)
    decreases expr.len() - i,
{
    if i < expr.len() && (expr[i as int] == '+' || expr[i as int] == '-') {
        if i + 1 < expr.len() && is_digit(expr[i + 1 as int]) {
            rest_steps(expr, i + 2, out.push(expr[i + 1 as int]).push(expr[i as int]))
        } else {
            (i + 1, out, false)
        }
    } else {
        (i, out, true)
    }
}

/// A whole expression: one operand, then the rest.
pub open spec fn parse_steps(expr: Seq<char>, i: nat, out: Seq<char>) -> (nat, Seq<char>, bool) {
    let (i1, out1, ok) = term_step(expr, i, out);
    if ok {
        rest_steps(expr, i1, out1)
    } else {
        (i1, out1, false)
    }
}

/// The infix-to-postfix parser: the expression text, a cursor into it,
/// and the postfix output emitted so far.
pub struct Infix2Suffix {
    expr: String,
    lookidx: usize,
    output: Vec<char>,
}

impl View for Infix2Suffix {
    type V = InfixView;

    closed spec fn view(&self) -> InfixView {
        InfixView { expr: self.expr@, lookidx: self.lookidx as nat, output: self.output@ }
    }
}

impl Infix2Suffix {
    /// A well-formed parser: the cursor never passes the end.
    pub open spec fn wf(&self) -> bool {
        self@.lookidx <= self@.expr.len()
    }

    /// A parser over an infix expression, with the cursor at the start
    /// and nothing emitted.
    pub fn new(expr: String) -> (p: Infix2Suffix)
        ensures
            p.wf(),
            p@.expr == expr@,
            p@.lookidx == 0,
            p@.output =~= Seq::<char>::empty(),
    {
        Infix2Suffix { expr, lookidx: 0, output: Vec::new() }
    }

    /// The postfix output emitted so far, in order.
    pub fn output(&self) -> (r: &Vec<char>)
        ensures
            r@ == self@.output,
    {
        &self.output
    }

    /// The character the cursor stands on. The cursor must not have
    /// reached the end of the expression.
    pub fn get_lookahead(&self) -> (c: char)
        requires
            self.wf(),
            self@.lookidx < self@.expr.len(),
        ensures
            c == self@.expr[self@.lookidx as int],
    {
        self.expr.as_str().get_char(self.lookidx)
    }

    /// Whether the cursor stands on exactly `c`; if so the cursor moves
    /// past it. The underscore stands in for the end of the expression,
    /// so expecting it never succeeds.
    pub fn expect(&mut self, c: char) -> (r: bool)
        requires
            old(self).wf(),
        ensures
            final(self).wf(),
            final(self)@.expr == old(self)@.expr,
            final(self)@.output == old(self)@.output,
            r == (old(self)@.lookidx < old(self)@.expr.len() && old(self)@.expr[old(
                self,
            )@.lookidx as int] == c && c != '_'),
            final(self)@.lookidx == old(self)@.lookidx + (if r {
                1int
            } else {
                0int
            }),
    {
        let len = self.expr.as_str().unicode_len();
        let lookahead = if self.lookidx < len {
            self.expr.as_str().get_char(self.lookidx)
        } else {
            '_'
        };
        if lookahead != '_' && lookahead == c {
            self.lookidx = self.lookidx + 1;
            true
        } else {
            false
        }
    }

    /// One operand: the digit at the cursor is emitted and consumed;
    /// anything else, the end included, is a failure at the cursor.
    pub fn term(&mut self) -> (r: Result<(), InfixError>)
        requires
            old(self).wf(),
        ensures
            final(self).wf(),
            final(self)@.expr == old(self)@.expr,
            ({
                let (i2, out2, ok) = term_step(
                    old(self)@.expr,
                    old(self)@.lookidx,
                    old(self)@.output,
                );
                &&& final(self)@.lookidx == i2
                &&& final(self)@.output == out2
                &&& (r matches Ok(_)) <==> ok
                &&& !ok ==> r == Result::<(), InfixError>::Err(InfixError { at: i2 as usize })
            }),
    {
        let len = self.expr.as_str().unicode_len();
        if self.lookidx < len {
            let lookahead = self.expr.as_str().get_char(self.lookidx);
            if lookahead >= '0' && lookahead <= '9' {
                self.output.push(lookahead);
                self.lookidx = self.lookidx + 1;
                return Ok(());
            }
        }
        Err(InfixError { at: self.lookidx })
    }

    /// A whole expression, `operand ((+|-) operand)*`: each operand is
    /// emitted as it is read and each operator after its right operand,
    /// so the output is the expression in postfix order. The first
    /// missing operand stops the parse at its position.
    #[verifier::loop_isolation(false)]
    pub fn parse(&mut self) -> (r: Result<(), InfixError>)
        requires
            old(self).wf(),
        ensures
            final(self).wf(),
            final(self)@.expr == old(self)@.expr,
            ({
                let (i2, out2, ok) = parse_steps(
                    old(self)@.expr,
                    old(self)@.lookidx,
                    old(self)@.output,
                );
                &&& final(self)@.lookidx == i2
                &&& final(self)@.output == out2
                &&& (r matches Ok(_)) <==> ok
                &&& !ok ==> r == Result::<(), InfixError>::Err(InfixError { at: i2 as usize })
            }),
    {
        match self.term() {
            Err(e) => {
                return Err(e);
            },
            Ok(_) => {},
        }
        loop
            invariant
                self.wf(),
                self@.expr == old(self)@.expr,
                rest_steps(self@.expr, self@.lookidx, self@.output) == rest_steps(
                    old(self)@.expr,
                    term_step(old(self)@.expr, old(self)@.lookidx, old(self)@.output).0,
                    term_step(old(self)@.expr, old(self)@.lookidx, old(self)@.output).1,
                ),
            decreases self@.expr.len() - self@.lookidx,
        {
            let ghost pre = self@;
            if self.expect('+') {
                match self.term() {
                    Err(e) => {
                        return Err(e);
                    },
                    Ok(_) => {},
                }
                self.output.push('+');
                proof {
                    assert(self@.output =~= pre.output.push(pre.expr[pre.lookidx + 1int]).push('+'));
                }
            } else if self.expect('-') {
                match self.term() {
                    Err(e) => {
                        return Err(e);
                    },
                    Ok(_) => {},
                }
                self.output.push('-');
                proof {
                    assert(self@.output =~= pre.output.push(pre.expr[pre.lookidx + 1int]).push('-'));
                }
            } else {
                return Ok(());
            }
        }
    }
}

} // verus!

//! The canonical textual form of an expression.

use super::expression::Expression;
use vstd::prelude::*;
use vstd::string::StringExecFns;

verus! {

/// The decimal digit `d` as text.
pub open spec fn spec_digit(d: nat) -> Seq<char> {
    if d == 0 {
        "0"@
    } else if d == 1 {
        "1"@
    } else if d == 2 {
        "2"@
    } else if d == 3 {
        "3"@
    } else if d == 4 {
        "4"@
    } else if d == 5 {
        "5"@
    } else if d == 6 {
        "6"@
    } else if d == 7 {
        "7"@
    } else if d == 8 {
        "8"@
    } else {
        "9"@
    }
}

/// The decimal form of `n`, without leading zeros.
pub open spec fn spec_decimal(n: nat) -> Seq<char>
    decreases n,
{
    if n < 10 {
        spec_digit(n)
    } else {
        spec_decimal(n / 10) + spec_digit(n % 10)
    }
}

/// The decimal form of `n`, with a minus sign if `n` is negative.
pub open spec fn spec_signed_decimal(n: int) -> Seq<char> {
    if n < 0 {
        "-"@ + spec_decimal((-n) as nat)
    } else {
        spec_decimal(n as nat)
    }
}

/// The text of a query: the kind's name, then the column index and the
/// rotation, each in square brackets.
pub open spec fn spec_query_text(kind: Seq<char>, column_index: usize, rotation: i32) -> Seq<char> {
    kind + "["@ + spec_decimal(column_index as nat) + "]["@ + spec_signed_decimal(rotation as int)
        + "]"@
}

/// The text of a selector or a challenge: the name, then the index in
/// square brackets.
pub open spec fn spec_indexed_text(name: Seq<char>, index: usize) -> Seq<char> {
    name + "["@ + spec_decimal(index as nat) + "]"@
}

/// The text of the negation of an expression whose text is `a`.
pub open spec fn spec_negated_text(a: Seq<char>) -> Seq<char> {
    "(-"@ + a + ")"@
}

/// The text of the sum of two expressions whose texts are `a` and `b`.
pub open spec fn spec_sum_text(a: Seq<char>, b: Seq<char>) -> Seq<char> {
    "("@ + a + "+"@ + b + ")"@
}

/// The text of the product of two expressions whose texts are `a` and `b`.
pub open spec fn spec_product_text(a: Seq<char>, b: Seq<char>) -> Seq<char> {
    "("@ + a + "*"@ + b + ")"@
}

/// The text of an expression whose text is `a`, scaled by a constant whose
/// text is `f`.
pub open spec fn spec_scaled_text(a: Seq<char>, f: Seq<char>) -> Seq<char> {
    a + "*"@ + f
}

/// The text of a constant that `constant` renders as `s`.
pub open spec fn spec_constant_text(s: String) -> Seq<char> {
    s@
}

/// The decimal digit `d` as text.
fn digit_str(d: usize) -> (r: &'static str)
    requires
        d < 10,
    ensures
        r@ == spec_digit(d as nat),
{
    if d == 0 {
        "0"
    } else if d == 1 {
        "1"
    } else if d == 2 {
        "2"
    } else if d == 3 {
        "3"
    } else if d == 4 {
        "4"
    } else if d == 5 {
        "5"
    } else if d == 6 {
        "6"
    } else if d == 7 {
        "7"
    } else if d == 8 {
        "8"
    } else {
        "9"
    }
}

/// Appends the decimal form of `n` to `writer`.
pub fn write_decimal(writer: &mut String, n: usize)
    ensures
        final(writer)@ == old(writer)@ + spec_decimal(n as nat),
    decreases n,
{
    if n >= 10 {
        write_decimal(writer, n / 10);
    }
    writer.append(digit_str(n % 10));
    proof {
        if n >= 10 {
            assert(old(writer)@ + spec_decimal((n / 10) as nat) + spec_digit((n % 10) as nat)
                =~= old(writer)@ + (spec_decimal((n / 10) as nat) + spec_digit((n % 10) as nat)));
        }
    }
}

/// Appends the decimal form of `n` to `writer`, with a minus sign if `n` is
/// negative.
pub fn write_signed_decimal(writer: &mut String, n: i32)
    ensures
        final(writer)@ == old(writer)@ + spec_signed_decimal(n as int),
{
    if n < 0 {
        writer.append("-");
        let magnitude: i64 = -(n as i64);
        write_decimal(writer, magnitude as usize);
        proof {
            assert(old(writer)@ + "-"@ + spec_decimal((-n) as nat) =~= old(writer)@ + ("-"@
                + spec_decimal((-n) as nat)));
        }
    } else {
        write_decimal(writer, n as usize);
    }
}

/// Appends the text of a query to `writer`.
fn write_query(writer: &mut String, kind: &str, column_index: usize, rotation: i32)
    ensures
        final(writer)@ == old(writer)@ + spec_query_text(kind@, column_index, rotation),
{
    writer.append(kind);
    writer.append("[");
    write_decimal(writer, column_index);
    writer.append("][");
    write_signed_decimal(writer, rotation);
    writer.append("]");
    proof {
        assert(final(writer)@ =~= old(writer)@ + spec_query_text(kind@, column_index, rotation));
    }
}

/// Appends the text of a selector or a challenge to `writer`.
fn write_indexed(writer: &mut String, name: &str, index: usize)
    ensures
        final(writer)@ == old(writer)@ + spec_indexed_text(name@, index),
{
    writer.append(name);
    writer.append("[");
    write_decimal(writer, index);
    writer.append("]");
    proof {
        assert(final(writer)@ =~= old(writer)@ + spec_indexed_text(name@, index));
    }
}

impl<F> Expression<F> {
    /// Whether `out` is a canonical text of the expression, with constants
    /// rendered by `constant`. Constants are written as `constant` renders
    /// them; queries as the kind's name with column index and rotation in
    /// square brackets; selectors and challenges with their index in square
    /// brackets; a negation as `(-a)`, a sum as `(a+b)`, a product as
    /// `(a*b)` and a scaled expression as `a*f`.
    pub open spec fn spec_is_identifier<CF: Fn(F) -> String>(
        self,
        constant: &CF,
        out: Seq<char>,
    ) -> bool
        decreases self,
    {
        match self {
            Expression::Constant(c) => exists|s: String|
                call_ensures(constant, (c,), s) && out == #[trigger] spec_constant_text(s),
            Expression::Selector(s) => out == spec_indexed_text("selector"@, s.0),
            Expression::Fixed(q) => out == spec_query_text("fixed"@, q.column_index, q.rotation.0),
            Expression::Advice(q) => out == spec_query_text(
                "advice"@,
                q.column_index,
                q.rotation.0,
            ),
            Expression::Instance(q) => out == spec_query_text(
                "instance"@,
                q.column_index,
                q.rotation.0,
            ),
            Expression::Challenge(c) => out == spec_indexed_text("challenge"@, c.index),
            Expression::Negated(a) => exists|x: Seq<char>|
                a.spec_is_identifier(constant, x) && out == #[trigger] spec_negated_text(x),
            Expression::Sum(a, b) => exists|x: Seq<char>, y: Seq<char>|
                a.spec_is_identifier(constant, x) && b.spec_is_identifier(constant, y) && out
                    == #[trigger] spec_sum_text(x, y),
            Expression::Product(a, b) => exists|x: Seq<char>, y: Seq<char>|
                a.spec_is_identifier(constant, x) && b.spec_is_identifier(constant, y) && out
                    == #[trigger] spec_product_text(x, y),
            Expression::Scaled(a, f) => exists|x: Seq<char>, s: String|
                a.spec_is_identifier(constant, x) && call_ensures(constant, (f,), s) && out
                    == #[trigger] spec_scaled_text(x, spec_constant_text(s)),
        }
    }

    /// Whether `constant` can render every constant of the expression.
    pub open spec fn spec_renderable<CF: Fn(F) -> String>(self, constant: &CF) -> bool
        decreases self,
    {
        match self {
            Expression::Constant(c) => call_requires(constant, (c,)),
            Expression::Negated(a) => a.spec_renderable(constant),
            Expression::Sum(a, b) => a.spec_renderable(constant) && b.spec_renderable(constant),
            Expression::Product(a, b) => a.spec_renderable(constant) && b.spec_renderable(constant),
            Expression::Scaled(a, f) => a.spec_renderable(constant) && call_requires(
                constant,
                (f,),
            ),
            _ => true,
        }
    }

    /// Appends the canonical text of the expression to `writer`, with
    /// constants rendered by `constant`.
    pub fn write_identifier<CF: Fn(F) -> String>(&self, constant: &CF, writer: &mut String) where
        F: Copy,

        requires
            self.spec_renderable(constant),
        ensures
            exists|text: Seq<char>|
                self.spec_is_identifier(constant, text) && final(writer)@ == old(writer)@
                    + #[trigger] spec_text(text),
        decreases self,
    {
        let ghost before = writer@;
        match self {
            Expression::Constant(scalar) => {
                let s = constant(*scalar);
                writer.append(s.as_str());
                proof {
                    assert(self.spec_is_identifier(constant, spec_constant_text(s)));
                    assert(writer@ == before + spec_text(spec_constant_text(s)));
                }
            },
            Expression::Selector(selector) => {
                write_indexed(writer, "selector", selector.0);
                proof {
                    let text = spec_indexed_text("selector"@, selector.0);
                    assert(writer@ == before + spec_text(text));
                }
            },
            Expression::Fixed(query) => {
                write_query(writer, "fixed", query.column_index, query.rotation.0);
                proof {
                    let text = spec_query_text("fixed"@, query.column_index, query.rotation.0);
                    assert(writer@ == before + spec_text(text));
                }
            },
            Expression::Advice(query) => {
                write_query(writer, "advice", query.column_index, query.rotation.0);
                proof {
                    let text = spec_query_text("advice"@, query.column_index, query.rotation.0);
                    assert(writer@ == before + spec_text(text));
                }
            },
            Expression::Instance(query) => {
                write_query(writer, "instance", query.column_index, query.rotation.0);
                proof {
                    let text = spec_query_text("instance"@, query.column_index, query.rotation.0);
                    assert(writer@ == before + spec_text(text));
                }
            },
            Expression::Challenge(challenge) => {
                write_indexed(writer, "challenge", challenge.index);
                proof {
                    let text = spec_indexed_text("challenge"@, challenge.index);
                    assert(writer@ == before + spec_text(text));
                }
            },
            Expression::Negated(a) => {
                writer.append("(-");
                let ghost mid = writer@;
                a.write_identifier(constant, writer);
                let ghost x = choose|x: Seq<char>|
                    a.spec_is_identifier(constant, x) && writer@ == mid
                        + #[trigger] spec_text(x);
                writer.append(")");
                proof {
                    let text = spec_negated_text(x);
                    assert(self.spec_is_identifier(constant, text));
                    assert(writer@ =~= before + spec_text(text));
                }
            },
            Expression::Sum(a, b) => {
                writer.append("(");
                let ghost mid = writer@;
                a.write_identifier(constant, writer);
                let ghost x = choose|x: Seq<char>|
                    a.spec_is_identifier(constant, x) && writer@ == mid
                        + #[trigger] spec_text(x);
                writer.append("+");
                let ghost mid2 = writer@;
                b.write_identifier(constant, writer);
                let ghost y = choose|y: Seq<char>|
                    b.spec_is_identifier(constant, y) && writer@ == mid2
                        + #[trigger] spec_text(y);
                writer.append(")");
                proof {
                    let text = spec_sum_text(x, y);
                    assert(self.spec_is_identifier(constant, text));
                    assert(writer@ =~= before + spec_text(text));
                }
            },
            Expression::Product(a, b) => {
                writer.append("(");
                let ghost mid = writer@;
                a.write_identifier(constant, writer);
                let ghost x = choose|x: Seq<char>|
                    a.spec_is_identifier(constant, x) && writer@ == mid
                        + #[trigger] spec_text(x);
                writer.append("*");
                let ghost mid2 = writer@;
                b.write_identifier(constant, writer);
                let ghost y = choose|y: Seq<char>|
                    b.spec_is_identifier(constant, y) && writer@ == mid2
                        + #[trigger] spec_text(y);
                writer.append(")");
                proof {
                    let text = spec_product_text(x, y);
                    assert(self.spec_is_identifier(constant, text));
                    assert(writer@ =~= before + spec_text(text));
                }
            },
            Expression::Scaled(a, f) => {
                a.write_identifier(constant, writer);
                let ghost x = choose|x: Seq<char>|
                    a.spec_is_identifier(constant, x) && writer@ == before
                        + #[trigger] spec_text(x);
                writer.append("*");
                let s = constant(*f);
                writer.append(s.as_str());
                proof {
                    let text = spec_scaled_text(x, spec_constant_text(s));
                    assert(self.spec_is_identifier(constant, text));
                    assert(writer@ =~= before + spec_text(text));
                }
            },
        }
    }

    /// Identifier for this expression. Expressions with identical identifiers
    /// do the same calculation (but the expressions don't need to be exactly
    /// equal in how they are composed).
    pub fn identifier<CF: Fn(F) -> String>(&self, constant: &CF) -> (r: String) where F: Copy
        requires
            self.spec_renderable(constant),
        ensures
            self.spec_is_identifier(constant, r@),
    {
        let mut writer = String::new();
        self.write_identifier(constant, &mut writer);
        proof {
            let text = choose|text: Seq<char>|
                self.spec_is_identifier(constant, text) && writer@ == Seq::<char>::empty()
                    + #[trigger] spec_text(text);
            assert(writer@ =~= text);
        }
        writer
    }
}

/// A text, named so that a quantifier over texts has a term to match on.
pub open spec fn spec_text(text: Seq<char>) -> Seq<char> {
    text
}

} // verus!

//! What the canonical text of an expression says of its value: two
//! expressions with the same text have the same value, wherever products
//! are associative and scaling is multiplication by a constant.

use super::column::{AdviceQuery, Challenge, FixedQuery, InstanceQuery, Selector};
use super::evaluate::Evaluator;
use super::expression::Expression;
use super::identifier::{
    spec_constant_text, spec_decimal, spec_digit, spec_indexed_text, spec_negated_text,
    spec_product_text, spec_query_text, spec_scaled_text, spec_signed_decimal, spec_sum_text,
};
use vstd::prelude::*;

verus! {

/// Whether `c` is a decimal digit.
pub open spec fn spec_is_digit(c: char) -> bool {
    c == '0' || c == '1' || c == '2' || c == '3' || c == '4' || c == '5' || c == '6' || c == '7'
        || c == '8' || c == '9'
}

/// Whether `c` is none of the signs that the canonical text puts between
/// and around the constants: the brackets, the plus, the minus and the
/// star.
pub open spec fn spec_is_plain(c: char) -> bool {
    c != '(' && c != ')' && c != '[' && c != ']' && c != '+' && c != '-' && c != '*'
}

/// Whether every character of `text` is a decimal digit.
pub open spec fn spec_all_digits(text: Seq<char>) -> bool {
    forall|i: int| 0 <= i < text.len() ==> spec_is_digit(#[trigger] text[i])
}

/// Whether every character of `text` is plain.
pub open spec fn spec_all_plain(text: Seq<char>) -> bool {
    forall|i: int| 0 <= i < text.len() ==> spec_is_plain(#[trigger] text[i])
}

/// Whether `rest` is empty or begins with a character that is no digit.
pub open spec fn spec_ends_digits(rest: Seq<char>) -> bool {
    rest.len() == 0 || !spec_is_digit(rest[0])
}

/// Two texts with the same beginning are the same.
proof fn lemma_same_beginning(head: Seq<char>, a: Seq<char>, b: Seq<char>)
    requires
        head + a == head + b,
    ensures
        a == b,
{
    assert(a =~= (head + a).subrange(head.len() as int, (head + a).len() as int));
    assert(b =~= (head + b).subrange(head.len() as int, (head + b).len() as int));
}

/// Two texts of one length that begin one text are the same, and so is
/// what follows them.
proof fn lemma_same_length(a: Seq<char>, x: Seq<char>, b: Seq<char>, y: Seq<char>)
    requires
        a + x == b + y,
        a.len() == b.len(),
    ensures
        a == b,
        x == y,
{
    assert(a =~= (a + x).subrange(0, a.len() as int));
    assert(b =~= (b + y).subrange(0, b.len() as int));
    lemma_same_beginning(a, x, y);
}

/// A decimal digit is one character, and that character is a digit, a
/// different one for each digit.
proof fn lemma_digit(d: nat)
    requires
        d < 10,
    ensures
        spec_digit(d).len() == 1,
        spec_is_digit(spec_digit(d)[0]),
        forall|e: nat| e < 10 && spec_digit(e)[0] == spec_digit(d)[0] ==> e == d,
{
    reveal_strlit("0");
    reveal_strlit("1");
    reveal_strlit("2");
    reveal_strlit("3");
    reveal_strlit("4");
    reveal_strlit("5");
    reveal_strlit("6");
    reveal_strlit("7");
    reveal_strlit("8");
    reveal_strlit("9");
}

/// The decimal form of a number is not empty and holds digits only.
proof fn lemma_decimal_digits(n: nat)
    ensures
        spec_decimal(n).len() > 0,
        spec_all_digits(spec_decimal(n)),
    decreases n,
{
    if n < 10 {
        lemma_digit(n);
    } else {
        lemma_decimal_digits(n / 10);
        lemma_digit(n % 10);
    }
}

/// Two numbers with the same decimal form are the same.
pub proof fn lemma_decimal_injective(n: nat, m: nat)
    requires
        spec_decimal(n) == spec_decimal(m),
    ensures
        n == m,
    decreases n,
{
    lemma_decimal_digits(n / 10);
    lemma_decimal_digits(m / 10);
    lemma_digit(n % 10);
    lemma_digit(m % 10);
    if n < 10 && m < 10 {
    } else if n >= 10 && m >= 10 {
        let a = spec_decimal(n / 10);
        let b = spec_decimal(m / 10);
        let text = spec_decimal(n);
        assert(text.last() == spec_digit(n % 10)[0]);
        assert(text.last() == spec_digit(m % 10)[0]);
        assert(a =~= text.drop_last());
        assert(b =~= text.drop_last());
        lemma_decimal_injective(n / 10, m / 10);
    }
}

/// Where a text begins with the decimal form of a number and goes on with
/// something that is no digit, it begins with the decimal form of no other
/// number.
proof fn lemma_decimal_ends(n: nat, x: Seq<char>, m: nat, y: Seq<char>)
    requires
        spec_decimal(n) + x == spec_decimal(m) + y,
        spec_ends_digits(x),
        spec_ends_digits(y),
    ensures
        n == m,
        x == y,
{
    let a = spec_decimal(n);
    let b = spec_decimal(m);
    lemma_decimal_digits(n);
    lemma_decimal_digits(m);
    if a.len() < b.len() {
        assert((a + x)[a.len() as int] == x[0]);
        assert((b + y)[a.len() as int] == b[a.len() as int]);
    }
    if b.len() < a.len() {
        assert((b + y)[b.len() as int] == y[0]);
        assert((a + x)[b.len() as int] == a[b.len() as int]);
    }
    lemma_same_length(a, x, b, y);
    lemma_decimal_injective(n, m);
}

/// Where a text begins with the signed decimal form of a number and goes on
/// with something that is no digit, it begins with the signed decimal form
/// of no other number.
proof fn lemma_signed_decimal_ends(n: int, x: Seq<char>, m: int, y: Seq<char>)
    requires
        spec_signed_decimal(n) + x == spec_signed_decimal(m) + y,
        spec_ends_digits(x),
        spec_ends_digits(y),
    ensures
        n == m,
        x == y,
{
    reveal_strlit("-");
    let minus = "-"@;
    lemma_decimal_digits((-n) as nat);
    lemma_decimal_digits((-m) as nat);
    lemma_decimal_digits(n as nat);
    lemma_decimal_digits(m as nat);
    let text = spec_signed_decimal(n) + x;
    if n < 0 && m < 0 {
        let a = spec_decimal((-n) as nat);
        let b = spec_decimal((-m) as nat);
        assert(minus + a + x =~= minus + (a + x));
        assert(minus + b + y =~= minus + (b + y));
        lemma_same_beginning(minus, a + x, b + y);
        lemma_decimal_ends((-n) as nat, x, (-m) as nat, y);
    } else if n >= 0 && m >= 0 {
        lemma_decimal_ends(n as nat, x, m as nat, y);
    } else if n < 0 {
        assert(text[0] == '-');
        assert((spec_signed_decimal(m) + y)[0] == spec_decimal(m as nat)[0]);
    } else {
        assert((spec_signed_decimal(m) + y)[0] == '-');
        assert(text[0] == spec_decimal(n as nat)[0]);
    }
}

/// Whether `rest` is empty or begins with a sign that can follow an
/// expression inside a product: a closing bracket, a plus or a star.
pub open spec fn spec_stops(rest: Seq<char>) -> bool {
    rest.len() == 0 || rest[0] == ')' || rest[0] == '+' || rest[0] == '*'
}

/// Whether `rest` is empty or begins with a sign that ends a scaled
/// expression: a closing bracket or a plus.
pub open spec fn spec_closes(rest: Seq<char>) -> bool {
    rest.len() == 0 || rest[0] == ')' || rest[0] == '+'
}

/// Where a text begins with a plain text and goes on with a sign that can
/// follow an expression, it begins with no other plain text.
proof fn lemma_plain_ends(a: Seq<char>, x: Seq<char>, b: Seq<char>, y: Seq<char>)
    requires
        a + x == b + y,
        spec_all_plain(a),
        spec_all_plain(b),
        spec_stops(x),
        spec_stops(y),
    ensures
        a == b,
        x == y,
{
    if a.len() < b.len() {
        assert((a + x)[a.len() as int] == x[0]);
        assert((b + y)[a.len() as int] == b[a.len() as int]);
    }
    if b.len() < a.len() {
        assert((b + y)[b.len() as int] == y[0]);
        assert((a + x)[b.len() as int] == a[b.len() as int]);
    }
    lemma_same_length(a, x, b, y);
}

/// Whether `name` is the name of a kind of query, of the selectors or of
/// the challenges.
pub open spec fn spec_is_name(name: Seq<char>) -> bool {
    name == "selector"@ || name == "fixed"@ || name == "advice"@ || name == "instance"@ || name
        == "challenge"@
}

/// A name is plain, and no two names begin with the same letter.
proof fn lemma_names(name: Seq<char>)
    requires
        spec_is_name(name),
    ensures
        name.len() > 0,
        spec_all_plain(name),
        forall|other: Seq<char>| #[trigger]
            spec_is_name(other) && other[0] == name[0] ==> other == name,
        "selector"@[0] == 's',
        "fixed"@[0] == 'f',
        "advice"@[0] == 'a',
        "instance"@[0] == 'i',
        "challenge"@[0] == 'c',
{
    reveal_strlit("selector");
    reveal_strlit("fixed");
    reveal_strlit("advice");
    reveal_strlit("instance");
    reveal_strlit("challenge");
}

/// A text that begins with a name and an opening square bracket does not
/// begin with a plain text that a sign follows which can follow an
/// expression.
proof fn lemma_name_is_no_constant(
    name: Seq<char>,
    x: Seq<char>,
    plain: Seq<char>,
    y: Seq<char>,
)
    requires
        spec_is_name(name),
        spec_all_plain(plain),
        spec_stops(y),
    ensures
        name + "["@ + x != plain + y,
{
    reveal_strlit("[");
    lemma_names(name);
    let text = name + "["@ + x;
    let k = name.len() as int;
    assert(text[k] == '[');
    if text == plain + y {
        if k < plain.len() {
            assert(text[k] == plain[k]);
        } else {
            let l = plain.len() as int;
            assert(text[l] == y[0]);
            if l < k {
                assert(text[l] == name[l]);
            }
        }
    }
}

/// Where a text begins with a name and an index in square brackets, it
/// begins with that name and no other index.
proof fn lemma_indexed_ends(name: Seq<char>, i: usize, x: Seq<char>, j: usize, y: Seq<char>)
    requires
        spec_indexed_text(name, i) + x == spec_indexed_text(name, j) + y,
    ensures
        i == j,
        x == y,
{
    reveal_strlit("[");
    reveal_strlit("]");
    let head = name + "["@;
    let a = "]"@ + x;
    let b = "]"@ + y;
    assert(spec_indexed_text(name, i) + x =~= head + (spec_decimal(i as nat) + a));
    assert(spec_indexed_text(name, j) + y =~= head + (spec_decimal(j as nat) + b));
    lemma_same_beginning(head, spec_decimal(i as nat) + a, spec_decimal(j as nat) + b);
    assert(a[0] == ']' && b[0] == ']');
    lemma_decimal_ends(i as nat, a, j as nat, b);
    lemma_same_beginning("]"@, x, y);
}

/// Where a text begins with a name, a column index and a rotation in
/// square brackets, it begins with that name and no other column index or
/// rotation.
proof fn lemma_query_ends(
    name: Seq<char>,
    column: usize,
    rotation: i32,
    x: Seq<char>,
    other_column: usize,
    other_rotation: i32,
    y: Seq<char>,
)
    requires
        spec_query_text(name, column, rotation) + x == spec_query_text(
            name,
            other_column,
            other_rotation,
        ) + y,
    ensures
        column == other_column,
        rotation == other_rotation,
        x == y,
{
    reveal_strlit("[");
    reveal_strlit("]");
    reveal_strlit("][");
    let head = name + "["@;
    let a = "]"@ + x;
    let b = "]"@ + y;
    let c = "]["@ + (spec_signed_decimal(rotation as int) + a);
    let d = "]["@ + (spec_signed_decimal(other_rotation as int) + b);
    assert(spec_query_text(name, column, rotation) + x =~= head + (spec_decimal(column as nat)
        + c));
    assert(spec_query_text(name, other_column, other_rotation) + y =~= head + (spec_decimal(
        other_column as nat,
    ) + d));
    lemma_same_beginning(
        head,
        spec_decimal(column as nat) + c,
        spec_decimal(other_column as nat) + d,
    );
    assert(c[0] == ']' && d[0] == ']');
    lemma_decimal_ends(column as nat, c, other_column as nat, d);
    lemma_same_beginning(
        "]["@,
        spec_signed_decimal(rotation as int) + a,
        spec_signed_decimal(other_rotation as int) + b,
    );
    assert(a[0] == ']' && b[0] == ']');
    lemma_signed_decimal_ends(rotation as int, a, other_rotation as int, b);
    lemma_same_beginning("]"@, x, y);
}

/// The operations of an evaluation, as functions: what a constant, a
/// selector by its index, a query by its column index and rotation and a
/// challenge by its index stand for, and what negating, adding,
/// multiplying and scaling give.
#[verifier::reject_recursive_types(F)]
#[verifier::reject_recursive_types(T)]
pub struct Algebra<F, T> {
    pub constant: spec_fn(F) -> T,
    pub selector: spec_fn(usize) -> T,
    pub fixed: spec_fn(usize, i32) -> T,
    pub advice: spec_fn(usize, i32) -> T,
    pub instance: spec_fn(usize, i32) -> T,
    pub challenge: spec_fn(usize) -> T,
    pub negated: spec_fn(T) -> T,
    pub sum: spec_fn(T, T) -> T,
    pub product: spec_fn(T, T) -> T,
    pub scaled: spec_fn(T, F) -> T,
}

/// Whether the text that `render` gives a constant is never empty and
/// always plain.
pub open spec fn spec_renders_plain<F>(render: spec_fn(F) -> Seq<char>) -> bool {
    forall|f: F|
        (#[trigger] spec_rendered(render, f)).len() > 0 && spec_all_plain(spec_rendered(render, f))
}

/// The text that `render` gives the constant `f`.
pub open spec fn spec_rendered<F>(render: spec_fn(F) -> Seq<char>, f: F) -> Seq<char> {
    render(f)
}

impl<F, T> Algebra<F, T> {
    /// The product of `x` and `y`.
    pub open spec fn spec_times(self, x: T, y: T) -> T {
        (self.product)(x, y)
    }

    /// `x` scaled by `f`.
    pub open spec fn spec_scale(self, x: T, f: F) -> T {
        (self.scaled)(x, f)
    }

    /// What the constant `f` stands for.
    pub open spec fn spec_constant(self, f: F) -> T {
        (self.constant)(f)
    }

    /// Whether products are associative.
    pub open spec fn spec_associative(self) -> bool {
        forall|x: T, y: T, z: T| #[trigger]
            self.spec_times(self.spec_times(x, y), z) == self.spec_times(x, self.spec_times(y, z))
    }

    /// Whether scaling by a constant is multiplying by what the constant
    /// stands for.
    pub open spec fn spec_scales(self) -> bool {
        forall|x: T, f: F| #[trigger]
            self.spec_scale(x, f) == self.spec_times(x, self.spec_constant(f))
    }

    /// Whether constants that `render` gives the same text stand for the
    /// same.
    pub open spec fn spec_reads(self, render: spec_fn(F) -> Seq<char>) -> bool {
        forall|f: F, g: F| #[trigger]
            spec_rendered(render, f) == #[trigger] spec_rendered(render, g) ==> self.spec_constant(
                f,
            ) == self.spec_constant(g)
    }

    /// Whether the canonical text under `render` decides the value:
    /// products are associative, scaling is multiplying by a constant,
    /// constants with the same text stand for the same, and the text of a
    /// constant is not empty and plain.
    pub open spec fn spec_canonical(self, render: spec_fn(F) -> Seq<char>) -> bool {
        &&& self.spec_associative()
        &&& self.spec_scales()
        &&& self.spec_reads(render)
        &&& spec_renders_plain(render)
    }

    /// The product of `x` and the values of `items`, from the left.
    pub open spec fn spec_times_all(self, x: T, items: Seq<Expression<F>>) -> T
        decreases items.len(),
    {
        if items.len() == 0 {
            x
        } else {
            self.spec_times_all(
                self.spec_times(x, items[0].spec_value(self)),
                items.drop_first(),
            )
        }
    }

    /// The product of the values of `items`, from the left.
    pub open spec fn spec_fold(self, items: Seq<Expression<F>>) -> T {
        self.spec_times_all(items[0].spec_value(self), items.drop_first())
    }
}

impl<F> Expression<F> {
    /// The canonical text of the expression, with constants rendered by
    /// `render`.
    pub open spec fn spec_identifier(self, render: spec_fn(F) -> Seq<char>) -> Seq<char>
        decreases self,
    {
        match self {
            Expression::Constant(c) => spec_rendered(render, c),
            Expression::Selector(s) => spec_indexed_text("selector"@, s.0),
            Expression::Fixed(q) => spec_query_text("fixed"@, q.column_index, q.rotation.0),
            Expression::Advice(q) => spec_query_text("advice"@, q.column_index, q.rotation.0),
            Expression::Instance(q) => spec_query_text("instance"@, q.column_index, q.rotation.0),
            Expression::Challenge(c) => spec_indexed_text("challenge"@, c.index),
            Expression::Negated(a) => spec_negated_text(a.spec_identifier(render)),
            Expression::Sum(a, b) => spec_sum_text(
                a.spec_identifier(render),
                b.spec_identifier(render),
            ),
            Expression::Product(a, b) => spec_product_text(
                a.spec_identifier(render),
                b.spec_identifier(render),
            ),
            Expression::Scaled(a, f) => spec_scaled_text(
                a.spec_identifier(render),
                spec_rendered(render, f),
            ),
        }
    }

    /// The value of the expression under the operations of `algebra`.
    pub open spec fn spec_value<T>(self, algebra: Algebra<F, T>) -> T
        decreases self,
    {
        match self {
            Expression::Constant(c) => algebra.spec_constant(c),
            Expression::Selector(s) => (algebra.selector)(s.0),
            Expression::Fixed(q) => (algebra.fixed)(q.column_index, q.rotation.0),
            Expression::Advice(q) => (algebra.advice)(q.column_index, q.rotation.0),
            Expression::Instance(q) => (algebra.instance)(q.column_index, q.rotation.0),
            Expression::Challenge(c) => (algebra.challenge)(c.index),
            Expression::Negated(a) => (algebra.negated)(a.spec_value(algebra)),
            Expression::Sum(a, b) => (algebra.sum)(a.spec_value(algebra), b.spec_value(algebra)),
            Expression::Product(a, b) => algebra.spec_times(
                a.spec_value(algebra),
                b.spec_value(algebra),
            ),
            Expression::Scaled(a, f) => algebra.spec_scale(a.spec_value(algebra), f),
        }
    }

    /// The factors of the expression: the expression itself, or, of a
    /// scaled expression, the factors of what is scaled and the constant
    /// it is scaled by.
    pub open spec fn spec_factors(self) -> Seq<Expression<F>>
        decreases self,
    {
        match self {
            Expression::Scaled(a, f) => a.spec_factors().push(Expression::Constant(f)),
            _ => seq![self],
        }
    }
}

/// Whether none of `items` is a scaled expression.
pub open spec fn spec_unscaled<F>(items: Seq<Expression<F>>) -> bool {
    forall|i: int| 0 <= i < items.len() ==> !((#[trigger] items[i]) is Scaled)
}

/// The texts of `items`, a star before each.
pub open spec fn spec_joined<F>(
    items: Seq<Expression<F>>,
    render: spec_fn(F) -> Seq<char>,
) -> Seq<char>
    decreases items.len(),
{
    if items.len() == 0 {
        Seq::empty()
    } else {
        "*"@ + items[0].spec_identifier(render) + spec_joined(items.drop_first(), render)
    }
}

/// The texts of two lists of expressions, one after the other, are the
/// texts of the two lists as one.
proof fn lemma_joined_both<F>(
    first: Seq<Expression<F>>,
    second: Seq<Expression<F>>,
    render: spec_fn(F) -> Seq<char>,
)
    ensures
        spec_joined(first + second, render) == spec_joined(first, render) + spec_joined(
            second,
            render,
        ),
    decreases first.len(),
{
    if first.len() == 0 {
        assert(first + second =~= second);
        assert(spec_joined(first, render) + spec_joined(second, render) =~= spec_joined(
            second,
            render,
        ));
    } else {
        lemma_joined_both(first.drop_first(), second, render);
        assert((first + second).drop_first() =~= first.drop_first() + second);
        assert((first + second)[0] == first[0]);
        assert(spec_joined(first + second, render) =~= spec_joined(first, render) + spec_joined(
            second,
            render,
        ));
    }
}

/// An expression has a factor, and none of its factors is a scaled
/// expression.
proof fn lemma_factors<F>(expr: Expression<F>)
    ensures
        expr.spec_factors().len() > 0,
        spec_unscaled(expr.spec_factors()),
    decreases expr,
{
    match expr {
        Expression::Scaled(a, f) => {
            lemma_factors(*a);
        },
        _ => {},
    }
}

/// The text of an expression, after a star, is the texts of its factors.
proof fn lemma_factors_text<F>(expr: Expression<F>, render: spec_fn(F) -> Seq<char>)
    ensures
        "*"@ + expr.spec_identifier(render) == spec_joined(expr.spec_factors(), render),
    decreases expr,
{
    match expr {
        Expression::Scaled(a, f) => {
            lemma_factors_text(*a, render);
            let last = seq![Expression::Constant(f)];
            assert(a.spec_factors().push(Expression::Constant(f)) =~= a.spec_factors() + last);
            lemma_joined_both(a.spec_factors(), last, render);
            assert(last.drop_first() =~= Seq::<Expression<F>>::empty());
            assert(spec_joined(last.drop_first(), render) =~= Seq::<char>::empty());
            assert(spec_joined(last, render) =~= "*"@ + spec_rendered(render, f));
            assert("*"@ + expr.spec_identifier(render) =~= "*"@ + a.spec_identifier(render) + ("*"@
                + spec_rendered(render, f)));
        },
        _ => {
            let only = seq![expr];
            assert(only.drop_first() =~= Seq::<Expression<F>>::empty());
            assert(spec_joined(only.drop_first(), render) =~= Seq::<char>::empty());
            assert(spec_joined(only, render) =~= "*"@ + expr.spec_identifier(render));
        },
    }
}

impl<F, T> Algebra<F, T> {
    /// Multiplying by the values of two lists of expressions, one after
    /// the other, is multiplying by the values of the two lists as one.
    proof fn lemma_times_both(
        self,
        x: T,
        first: Seq<Expression<F>>,
        second: Seq<Expression<F>>,
    )
        ensures
            self.spec_times_all(x, first + second) == self.spec_times_all(
                self.spec_times_all(x, first),
                second,
            ),
        decreases first.len(),
    {
        if first.len() == 0 {
            assert(first + second =~= second);
        } else {
            assert((first + second).drop_first() =~= first.drop_first() + second);
            assert((first + second)[0] == first[0]);
            self.lemma_times_both(
                self.spec_times(x, first[0].spec_value(self)),
                first.drop_first(),
                second,
            );
        }
    }

    /// Where products are associative, a product with a product from the
    /// left is one product from the left.
    proof fn lemma_times_left(self, x: T, y: T, items: Seq<Expression<F>>)
        requires
            self.spec_associative(),
        ensures
            self.spec_times(x, self.spec_times_all(y, items)) == self.spec_times_all(
                self.spec_times(x, y),
                items,
            ),
        decreases items.len(),
    {
        if items.len() > 0 {
            let v = items[0].spec_value(self);
            self.lemma_times_left(x, self.spec_times(y, v), items.drop_first());
            assert(self.spec_times(self.spec_times(x, y), v) == self.spec_times(
                x,
                self.spec_times(y, v),
            ));
        }
    }

    /// Two lists of expressions with the same values, one by one, give the
    /// same product.
    proof fn lemma_times_same(self, x: T, first: Seq<Expression<F>>, second: Seq<Expression<F>>)
        requires
            first.len() == second.len(),
            forall|i: int|
                0 <= i < first.len() ==> (#[trigger] first[i]).spec_value(self)
                    == second[i].spec_value(self),
        ensures
            self.spec_times_all(x, first) == self.spec_times_all(x, second),
        decreases first.len(),
    {
        if first.len() > 0 {
            assert(first[0].spec_value(self) == second[0].spec_value(self));
            assert forall|i: int| 0 <= i < first.drop_first().len() implies (
            #[trigger] first.drop_first()[i]).spec_value(self) == second.drop_first()[i].spec_value(
                self,
            ) by {
                assert(first[i + 1].spec_value(self) == second[i + 1].spec_value(self));
            }
            self.lemma_times_same(
                self.spec_times(x, first[0].spec_value(self)),
                first.drop_first(),
                second.drop_first(),
            );
        }
    }

    /// Two lists of expressions with the same values, one by one, have
    /// the same product.
    proof fn lemma_fold_same(self, first: Seq<Expression<F>>, second: Seq<Expression<F>>)
        requires
            first.len() > 0,
            spec_same_values(self, first, second),
        ensures
            self.spec_fold(first) == self.spec_fold(second),
    {
        assert(first[0].spec_value(self) == second[0].spec_value(self));
        assert forall|i: int| 0 <= i < first.drop_first().len() implies (
        #[trigger] first.drop_first()[i]).spec_value(self) == second.drop_first()[i].spec_value(
            self,
        ) by {
            assert(first[i + 1].spec_value(self) == second[i + 1].spec_value(self));
        }
        self.lemma_times_same(first[0].spec_value(self), first.drop_first(), second.drop_first());
    }

    /// Where scaling is multiplying by a constant, the value of an
    /// expression is the product of the values of its factors.
    proof fn lemma_factors_value(self, expr: Expression<F>)
        requires
            self.spec_scales(),
        ensures
            expr.spec_value(self) == self.spec_fold(expr.spec_factors()),
        decreases expr,
    {
        match expr {
            Expression::Scaled(a, f) => {
                self.lemma_factors_value(*a);
                let factors = a.spec_factors();
                let last = seq![Expression::Constant(f)];
                lemma_factors(*a);
                assert(factors.push(Expression::Constant(f)) =~= factors + last);
                assert((factors + last).drop_first() =~= factors.drop_first() + last);
                self.lemma_times_both(factors[0].spec_value(self), factors.drop_first(), last);
                assert(last.drop_first() =~= Seq::<Expression<F>>::empty());
                let inner = a.spec_value(self);
                assert(self.spec_times_all(inner, last) == self.spec_times_all(
                    self.spec_times(inner, last[0].spec_value(self)),
                    last.drop_first(),
                ));
                assert(self.spec_scale(inner, f) == self.spec_times(inner, self.spec_constant(f)));
            },
            _ => {
                assert(seq![expr].drop_first() =~= Seq::<Expression<F>>::empty());
            },
        }
    }

    /// Where products are associative and scaling is multiplying by a
    /// constant, the value of a product is the product of the values of
    /// the factors of both sides.
    proof fn lemma_product_value(self, a: Expression<F>, b: Expression<F>)
        requires
            self.spec_associative(),
            self.spec_scales(),
        ensures
            self.spec_times(a.spec_value(self), b.spec_value(self)) == self.spec_fold(
                a.spec_factors() + b.spec_factors(),
            ),
    {
        let first = a.spec_factors();
        let second = b.spec_factors();
        lemma_factors(a);
        lemma_factors(b);
        self.lemma_factors_value(a);
        self.lemma_factors_value(b);
        let x = a.spec_value(self);
        self.lemma_times_left(x, second[0].spec_value(self), second.drop_first());
        assert((first + second).drop_first() =~= first.drop_first() + second);
        self.lemma_times_both(first[0].spec_value(self), first.drop_first(), second);
    }
}

impl<F> Expression<F> {
    /// Whether the expression is a selector, a query or a challenge.
    pub open spec fn spec_is_named(self) -> bool {
        self is Selector || self is Fixed || self is Advice || self is Instance
            || self is Challenge
    }

    /// Whether the expression is a negation, a sum or a product.
    pub open spec fn spec_is_group(self) -> bool {
        self is Negated || self is Sum || self is Product
    }

    /// The name that the text of a selector, a query or a challenge
    /// begins with.
    pub open spec fn spec_name(self) -> Seq<char> {
        match self {
            Expression::Selector(_) => "selector"@,
            Expression::Fixed(_) => "fixed"@,
            Expression::Advice(_) => "advice"@,
            Expression::Instance(_) => "instance"@,
            _ => "challenge"@,
        }
    }

    /// What follows the name and the opening square bracket in the text of
    /// a selector, a query or a challenge.
    pub open spec fn spec_after_name(self) -> Seq<char> {
        match self {
            Expression::Selector(s) => spec_decimal(s.0 as nat) + "]"@,
            Expression::Fixed(q) => spec_decimal(q.column_index as nat) + "]["@
                + spec_signed_decimal(q.rotation.0 as int) + "]"@,
            Expression::Advice(q) => spec_decimal(q.column_index as nat) + "]["@
                + spec_signed_decimal(q.rotation.0 as int) + "]"@,
            Expression::Instance(q) => spec_decimal(q.column_index as nat) + "]["@
                + spec_signed_decimal(q.rotation.0 as int) + "]"@,
            Expression::Challenge(c) => spec_decimal(c.index as nat) + "]"@,
            _ => Seq::empty(),
        }
    }
}

/// The text of a selector, a query or a challenge is its name, an opening
/// square bracket and what follows them.
proof fn lemma_named_text<F>(expr: Expression<F>, render: spec_fn(F) -> Seq<char>)
    requires
        expr.spec_is_named(),
    ensures
        spec_is_name(expr.spec_name()),
        expr.spec_identifier(render) == expr.spec_name() + "["@ + expr.spec_after_name(),
        expr.spec_identifier(render).len() > 0,
        expr.spec_identifier(render)[0] == expr.spec_name()[0],
{
    lemma_names(expr.spec_name());
    assert(expr.spec_identifier(render) =~= expr.spec_name() + "["@ + expr.spec_after_name());
}

/// The text of an expression is not empty, and begins with an opening
/// bracket or a plain character: with an opening bracket if the expression
/// is a negation, a sum or a product, with a plain character if it is a
/// constant, a selector, a query or a challenge.
proof fn lemma_lead<F>(expr: Expression<F>, render: spec_fn(F) -> Seq<char>)
    requires
        spec_renders_plain(render),
    ensures
        expr.spec_identifier(render).len() > 0,
        expr.spec_identifier(render)[0] == '(' || spec_is_plain(expr.spec_identifier(render)[0]),
        expr.spec_is_group() ==> expr.spec_identifier(render)[0] == '(',
        expr is Constant || expr.spec_is_named() ==> spec_is_plain(
            expr.spec_identifier(render)[0],
        ),
    decreases expr,
{
    reveal_strlit("(");
    reveal_strlit("(-");
    match expr {
        Expression::Constant(c) => {
            assert(spec_is_plain(spec_rendered(render, c)[0]));
        },
        Expression::Negated(a) => {},
        Expression::Sum(a, b) => {},
        Expression::Product(a, b) => {},
        Expression::Scaled(a, f) => {
            lemma_lead(*a, render);
        },
        _ => {
            lemma_named_text(expr, render);
            lemma_names(expr.spec_name());
        },
    }
}

/// The text of a negation, a sum or a product, taken apart.
proof fn lemma_group_text<F>(expr: Expression<F>, render: spec_fn(F) -> Seq<char>, x: Seq<char>)
    ensures
        expr matches Expression::Negated(a) ==> expr.spec_identifier(render) + x == "(-"@ + (
        a.spec_identifier(render) + (")"@ + x)) && expr.spec_identifier(render).len()
            == a.spec_identifier(render).len() + 3 && expr.spec_identifier(render)[1] == '-',
        expr matches Expression::Sum(a, b) ==> expr.spec_identifier(render) + x == "("@ + (
        a.spec_identifier(render) + ("+"@ + (b.spec_identifier(render) + (")"@ + x))))
            && expr.spec_identifier(render).len() == a.spec_identifier(render).len()
            + b.spec_identifier(render).len() + 3,
        expr matches Expression::Product(a, b) ==> expr.spec_identifier(render) + x == "("@ + (
        a.spec_identifier(render) + ("*"@ + (b.spec_identifier(render) + (")"@ + x))))
            && expr.spec_identifier(render).len() == a.spec_identifier(render).len()
            + b.spec_identifier(render).len() + 3,
        spec_closes(")"@ + x),
        forall|rest: Seq<char>| #[trigger] spec_closes("+"@ + rest),
        forall|rest: Seq<char>| #[trigger] spec_stops("*"@ + rest),
        forall|rest: Seq<char>| (#[trigger] ("+"@ + rest))[0] == '+',
        forall|rest: Seq<char>| (#[trigger] (")"@ + rest))[0] == ')',
        forall|rest: Seq<char>| (#[trigger] ("*"@ + rest))[0] == '*',
{
    reveal_strlit("(");
    reveal_strlit("(-");
    reveal_strlit(")");
    reveal_strlit("+");
    reveal_strlit("*");
    match expr {
        Expression::Negated(a) => {
            assert(expr.spec_identifier(render) + x =~= "(-"@ + (a.spec_identifier(render) + (")"@
                + x)));
        },
        Expression::Sum(a, b) => {
            assert(expr.spec_identifier(render) + x =~= "("@ + (a.spec_identifier(render) + ("+"@
                + (b.spec_identifier(render) + (")"@ + x)))));
        },
        Expression::Product(a, b) => {
            assert(expr.spec_identifier(render) + x =~= "("@ + (a.spec_identifier(render) + ("*"@
                + (b.spec_identifier(render) + (")"@ + x)))));
        },
        _ => {},
    }
}

/// Whether two lists of expressions are as long as each other and have
/// the same values, one by one.
pub open spec fn spec_same_values<F, T>(
    algebra: Algebra<F, T>,
    first: Seq<Expression<F>>,
    second: Seq<Expression<F>>,
) -> bool {
    &&& first.len() == second.len()
    &&& forall|i: int|
        0 <= i < first.len() ==> (#[trigger] first[i]).spec_value(algebra) == second[i].spec_value(
            algebra,
        )
}

/// Where a text begins with the text of a constant, a selector, a query or
/// a challenge and goes on with a sign that can follow an expression, it
/// begins with the text of no other of them, but for one with the same
/// value.
proof fn lemma_atom_ends<F, T>(
    algebra: Algebra<F, T>,
    render: spec_fn(F) -> Seq<char>,
    a: Expression<F>,
    x: Seq<char>,
    b: Expression<F>,
    y: Seq<char>,
)
    requires
        algebra.spec_canonical(render),
        a is Constant || a.spec_is_named(),
        b is Constant || b.spec_is_named(),
        spec_stops(x),
        spec_stops(y),
        a.spec_identifier(render) + x == b.spec_identifier(render) + y,
    ensures
        x == y,
        a.spec_value(algebra) == b.spec_value(algebra),
{
    let text = a.spec_identifier(render) + x;
    lemma_lead(a, render);
    lemma_lead(b, render);
    assert(text[0] == a.spec_identifier(render)[0]);
    assert(text[0] == b.spec_identifier(render)[0]);
    match (a, b) {
        (Expression::Constant(c), Expression::Constant(d)) => {
            lemma_plain_ends(spec_rendered(render, c), x, spec_rendered(render, d), y);
        },
        (Expression::Constant(c), _) => {
            lemma_named_text(b, render);
            lemma_name_is_no_constant(
                b.spec_name(),
                b.spec_after_name() + y,
                spec_rendered(render, c),
                x,
            );
            assert(b.spec_identifier(render) + y =~= b.spec_name() + "["@ + (b.spec_after_name()
                + y));
        },
        (_, Expression::Constant(d)) => {
            lemma_named_text(a, render);
            lemma_name_is_no_constant(
                a.spec_name(),
                a.spec_after_name() + x,
                spec_rendered(render, d),
                y,
            );
            assert(a.spec_identifier(render) + x =~= a.spec_name() + "["@ + (a.spec_after_name()
                + x));
        },
        _ => {
            lemma_named_text(a, render);
            lemma_named_text(b, render);
            lemma_names(a.spec_name());
            assert(a.spec_name() == b.spec_name());
            match (a, b) {
                (Expression::Selector(s), Expression::Selector(t)) => {
                    lemma_indexed_ends("selector"@, s.0, x, t.0, y);
                },
                (Expression::Challenge(s), Expression::Challenge(t)) => {
                    lemma_indexed_ends("challenge"@, s.index, x, t.index, y);
                },
                (Expression::Fixed(s), Expression::Fixed(t)) => {
                    lemma_query_ends(
                        "fixed"@,
                        s.column_index,
                        s.rotation.0,
                        x,
                        t.column_index,
                        t.rotation.0,
                        y,
                    );
                },
                (Expression::Advice(s), Expression::Advice(t)) => {
                    lemma_query_ends(
                        "advice"@,
                        s.column_index,
                        s.rotation.0,
                        x,
                        t.column_index,
                        t.rotation.0,
                        y,
                    );
                },
                (Expression::Instance(s), Expression::Instance(t)) => {
                    lemma_query_ends(
                        "instance"@,
                        s.column_index,
                        s.rotation.0,
                        x,
                        t.column_index,
                        t.rotation.0,
                        y,
                    );
                },
                _ => {},
            }
        },
    }
}

/// The second character of the text of a negation is a minus; that of a
/// sum or a product is an opening bracket or plain.
proof fn lemma_second<F>(expr: Expression<F>, render: spec_fn(F) -> Seq<char>, x: Seq<char>)
    requires
        spec_renders_plain(render),
        expr.spec_is_group(),
    ensures
        (expr.spec_identifier(render) + x).len() > 1,
        expr is Negated ==> (expr.spec_identifier(render) + x)[1] == '-',
        !(expr is Negated) ==> (expr.spec_identifier(render) + x)[1] == '(' || spec_is_plain(
            (expr.spec_identifier(render) + x)[1],
        ),
{
    reveal_strlit("(");
    reveal_strlit("(-");
    lemma_group_text(expr, render, x);
    match expr {
        Expression::Sum(a, b) => {
            lemma_lead(*a, render);
            assert((expr.spec_identifier(render) + x)[1] == a.spec_identifier(render)[0]);
        },
        Expression::Product(a, b) => {
            lemma_lead(*a, render);
            assert((expr.spec_identifier(render) + x)[1] == a.spec_identifier(render)[0]);
        },
        _ => {},
    }
}

/// Where a text begins with the text of an expression that is not scaled
/// and goes on with a sign that can follow an expression, it begins with
/// the text of no other such expression, but for one with the same value.
proof fn lemma_unit_ends<F, T>(
    algebra: Algebra<F, T>,
    render: spec_fn(F) -> Seq<char>,
    a: Expression<F>,
    x: Seq<char>,
    b: Expression<F>,
    y: Seq<char>,
)
    requires
        algebra.spec_canonical(render),
        !(a is Scaled),
        !(b is Scaled),
        spec_stops(x),
        spec_stops(y),
        a.spec_identifier(render) + x == b.spec_identifier(render) + y,
    ensures
        x == y,
        a.spec_value(algebra) == b.spec_value(algebra),
    decreases a.spec_identifier(render).len(), 1nat,
{
    let text = a.spec_identifier(render) + x;
    lemma_lead(a, render);
    lemma_lead(b, render);
    assert(text[0] == a.spec_identifier(render)[0]);
    assert(text[0] == b.spec_identifier(render)[0]);
    if !a.spec_is_group() {
        lemma_atom_ends(algebra, render, a, x, b, y);
    } else {
        lemma_second(a, render, x);
        lemma_second(b, render, y);
        if a is Negated {
            lemma_negations_end(algebra, render, a, x, b, y);
        } else if a is Sum && b is Sum {
            lemma_sums_end(algebra, render, a, x, b, y);
        } else if a is Sum {
            lemma_sum_is_no_product(algebra, render, a, x, b, y);
        } else if b is Sum {
            lemma_product_is_no_sum(algebra, render, a, x, b, y);
        } else {
            lemma_products_end(algebra, render, a, x, b, y);
        }
    }
}

/// Where a text begins with the text of a negation, it begins with the
/// text of no other negation, but for one with the same value.
proof fn lemma_negations_end<F, T>(
    algebra: Algebra<F, T>,
    render: spec_fn(F) -> Seq<char>,
    a: Expression<F>,
    x: Seq<char>,
    b: Expression<F>,
    y: Seq<char>,
)
    requires
        algebra.spec_canonical(render),
        a is Negated,
        b is Negated,
        a.spec_identifier(render) + x == b.spec_identifier(render) + y,
    ensures
        x == y,
        a.spec_value(algebra) == b.spec_value(algebra),
    decreases a.spec_identifier(render).len(), 0nat,
{
    lemma_group_text(a, render, x);
    lemma_group_text(b, render, y);
    let close_x = ")"@ + x;
    let close_y = ")"@ + y;
    match (a, b) {
        (Expression::Negated(a1), Expression::Negated(b1)) => {
            lemma_same_beginning(
                "(-"@,
                a1.spec_identifier(render) + close_x,
                b1.spec_identifier(render) + close_y,
            );
            lemma_scaled_ends(algebra, render, *a1, close_x, *b1, close_y);
            lemma_same_beginning(")"@, x, y);
        },
        _ => {},
    }
}

/// Where a text begins with the text of a sum, it begins with the text of
/// no other sum, but for one with the same value.
proof fn lemma_sums_end<F, T>(
    algebra: Algebra<F, T>,
    render: spec_fn(F) -> Seq<char>,
    a: Expression<F>,
    x: Seq<char>,
    b: Expression<F>,
    y: Seq<char>,
)
    requires
        algebra.spec_canonical(render),
        a is Sum,
        b is Sum,
        a.spec_identifier(render) + x == b.spec_identifier(render) + y,
    ensures
        x == y,
        a.spec_value(algebra) == b.spec_value(algebra),
    decreases a.spec_identifier(render).len(), 0nat,
{
    lemma_group_text(a, render, x);
    lemma_group_text(b, render, y);
    let close_x = ")"@ + x;
    let close_y = ")"@ + y;
    match (a, b) {
        (Expression::Sum(a1, a2), Expression::Sum(b1, b2)) => {
            let plus_x = "+"@ + (a2.spec_identifier(render) + close_x);
            let plus_y = "+"@ + (b2.spec_identifier(render) + close_y);
            lemma_same_beginning(
                "("@,
                a1.spec_identifier(render) + plus_x,
                b1.spec_identifier(render) + plus_y,
            );
            lemma_scaled_ends(algebra, render, *a1, plus_x, *b1, plus_y);
            lemma_same_beginning(
                "+"@,
                a2.spec_identifier(render) + close_x,
                b2.spec_identifier(render) + close_y,
            );
            lemma_scaled_ends(algebra, render, *a2, close_x, *b2, close_y);
            lemma_same_beginning(")"@, x, y);
        },
        _ => {},
    }
}

/// The texts of the factors of both sides of a product, a star before
/// each, are the text of the product between its brackets, after a star.
proof fn lemma_product_text<F>(
    a: Expression<F>,
    b: Expression<F>,
    render: spec_fn(F) -> Seq<char>,
    x: Seq<char>,
)
    ensures
        spec_unscaled(a.spec_factors() + b.spec_factors()),
        (a.spec_factors() + b.spec_factors()).len() > 1,
        spec_joined(a.spec_factors() + b.spec_factors(), render) + x == "*"@ + (
        a.spec_identifier(render) + ("*"@ + (b.spec_identifier(render) + x))),
        spec_joined(a.spec_factors() + b.spec_factors(), render).len() == a.spec_identifier(
            render,
        ).len() + b.spec_identifier(render).len() + 2,
{
    reveal_strlit("*");
    lemma_factors(a);
    lemma_factors(b);
    lemma_factors_text(a, render);
    lemma_factors_text(b, render);
    lemma_joined_both(a.spec_factors(), b.spec_factors(), render);
    assert(spec_joined(a.spec_factors() + b.spec_factors(), render) + x =~= "*"@ + (
    a.spec_identifier(render) + ("*"@ + (b.spec_identifier(render) + x))));
    assert(spec_joined(a.spec_factors(), render).len() == a.spec_identifier(render).len() + 1);
    assert(spec_joined(b.spec_factors(), render).len() == b.spec_identifier(render).len() + 1);
}

/// The texts of the factors of an expression, a star before each, are the
/// text of the expression after a star.
proof fn lemma_scaled_text<F>(a: Expression<F>, render: spec_fn(F) -> Seq<char>, x: Seq<char>)
    ensures
        spec_unscaled(a.spec_factors()),
        a.spec_factors().len() > 0,
        spec_joined(a.spec_factors(), render) + x == "*"@ + (a.spec_identifier(render) + x),
        spec_joined(a.spec_factors(), render).len() == a.spec_identifier(render).len() + 1,
{
    reveal_strlit("*");
    lemma_factors(a);
    lemma_factors_text(a, render);
    assert(spec_joined(a.spec_factors(), render) + x =~= "*"@ + (a.spec_identifier(render) + x));
    assert(spec_joined(a.spec_factors(), render).len() == a.spec_identifier(render).len() + 1);
}

/// A text that begins with the text of a sum does not begin with the text
/// of a product.
proof fn lemma_sum_is_no_product<F, T>(
    algebra: Algebra<F, T>,
    render: spec_fn(F) -> Seq<char>,
    a: Expression<F>,
    x: Seq<char>,
    b: Expression<F>,
    y: Seq<char>,
)
    requires
        algebra.spec_canonical(render),
        a is Sum,
        b is Product,
    ensures
        a.spec_identifier(render) + x != b.spec_identifier(render) + y,
    decreases a.spec_identifier(render).len(), 0nat,
{
    lemma_group_text(a, render, x);
    lemma_group_text(b, render, y);
    let close_x = ")"@ + x;
    let close_y = ")"@ + y;
    if a.spec_identifier(render) + x == b.spec_identifier(render) + y {
        match (a, b) {
            (Expression::Sum(a1, a2), Expression::Product(b1, b2)) => {
                let plus_x = "+"@ + (a2.spec_identifier(render) + close_x);
                let inner_y = b1.spec_identifier(render) + ("*"@ + (b2.spec_identifier(render)
                    + close_y));
                lemma_same_beginning("("@, a1.spec_identifier(render) + plus_x, inner_y);
                let second = b1.spec_factors() + b2.spec_factors();
                lemma_scaled_text(*a1, render, plus_x);
                lemma_product_text(*b1, *b2, render, close_y);
                lemma_joined_ends(algebra, render, a1.spec_factors(), plus_x, second, close_y);
            },
            _ => {},
        }
    }
}

/// A text that begins with the text of a product does not begin with the
/// text of a sum.
proof fn lemma_product_is_no_sum<F, T>(
    algebra: Algebra<F, T>,
    render: spec_fn(F) -> Seq<char>,
    a: Expression<F>,
    x: Seq<char>,
    b: Expression<F>,
    y: Seq<char>,
)
    requires
        algebra.spec_canonical(render),
        a is Product,
        b is Sum,
    ensures
        a.spec_identifier(render) + x != b.spec_identifier(render) + y,
    decreases a.spec_identifier(render).len(), 0nat,
{
    lemma_group_text(a, render, x);
    lemma_group_text(b, render, y);
    let close_x = ")"@ + x;
    let close_y = ")"@ + y;
    if a.spec_identifier(render) + x == b.spec_identifier(render) + y {
        match (a, b) {
            (Expression::Product(a1, a2), Expression::Sum(b1, b2)) => {
                let plus_y = "+"@ + (b2.spec_identifier(render) + close_y);
                let inner_x = a1.spec_identifier(render) + ("*"@ + (a2.spec_identifier(render)
                    + close_x));
                lemma_same_beginning("("@, inner_x, b1.spec_identifier(render) + plus_y);
                let first = a1.spec_factors() + a2.spec_factors();
                lemma_scaled_text(*b1, render, plus_y);
                lemma_product_text(*a1, *a2, render, close_x);
                lemma_joined_ends(algebra, render, first, close_x, b1.spec_factors(), plus_y);
            },
            _ => {},
        }
    }
}

/// Where a text begins with the text of a product, it begins with the
/// text of no other product, but for one with the same value.
proof fn lemma_products_end<F, T>(
    algebra: Algebra<F, T>,
    render: spec_fn(F) -> Seq<char>,
    a: Expression<F>,
    x: Seq<char>,
    b: Expression<F>,
    y: Seq<char>,
)
    requires
        algebra.spec_canonical(render),
        a is Product,
        b is Product,
        a.spec_identifier(render) + x == b.spec_identifier(render) + y,
    ensures
        x == y,
        a.spec_value(algebra) == b.spec_value(algebra),
    decreases a.spec_identifier(render).len(), 0nat,
{
    lemma_group_text(a, render, x);
    lemma_group_text(b, render, y);
    let close_x = ")"@ + x;
    let close_y = ")"@ + y;
    match (a, b) {
        (Expression::Product(a1, a2), Expression::Product(b1, b2)) => {
            let inner_x = a1.spec_identifier(render) + ("*"@ + (a2.spec_identifier(render)
                + close_x));
            let inner_y = b1.spec_identifier(render) + ("*"@ + (b2.spec_identifier(render)
                + close_y));
            lemma_same_beginning("("@, inner_x, inner_y);
            let first = a1.spec_factors() + a2.spec_factors();
            let second = b1.spec_factors() + b2.spec_factors();
            lemma_product_text(*a1, *a2, render, close_x);
            lemma_product_text(*b1, *b2, render, close_y);
            lemma_joined_ends(algebra, render, first, close_x, second, close_y);
            lemma_same_beginning(")"@, x, y);
            algebra.lemma_product_value(*a1, *a2);
            algebra.lemma_product_value(*b1, *b2);
            algebra.lemma_fold_same(first, second);
        },
        _ => {},
    }
}

/// Where a text begins with the text of an expression and goes on with a
/// sign that ends a scaled expression, it begins with the text of no
/// other expression, but for one with the same value.
proof fn lemma_scaled_ends<F, T>(
    algebra: Algebra<F, T>,
    render: spec_fn(F) -> Seq<char>,
    a: Expression<F>,
    x: Seq<char>,
    b: Expression<F>,
    y: Seq<char>,
)
    requires
        algebra.spec_canonical(render),
        spec_closes(x),
        spec_closes(y),
        a.spec_identifier(render) + x == b.spec_identifier(render) + y,
    ensures
        x == y,
        a.spec_value(algebra) == b.spec_value(algebra),
    decreases a.spec_identifier(render).len() + 1, 1nat,
{
    let first = a.spec_factors();
    let second = b.spec_factors();
    lemma_scaled_text(a, render, x);
    lemma_scaled_text(b, render, y);
    lemma_joined_ends(algebra, render, first, x, second, y);
    algebra.lemma_factors_value(a);
    algebra.lemma_factors_value(b);
    algebra.lemma_fold_same(first, second);
}

/// Where a text begins with the texts of some expressions that are not
/// scaled, a star before each, and goes on with a sign that ends a scaled
/// expression, it begins with the texts of no other such expressions, but
/// for as many with the same values.
proof fn lemma_joined_ends<F, T>(
    algebra: Algebra<F, T>,
    render: spec_fn(F) -> Seq<char>,
    first: Seq<Expression<F>>,
    x: Seq<char>,
    second: Seq<Expression<F>>,
    y: Seq<char>,
)
    requires
        algebra.spec_canonical(render),
        spec_unscaled(first),
        spec_unscaled(second),
        spec_closes(x),
        spec_closes(y),
        spec_joined(first, render) + x == spec_joined(second, render) + y,
    ensures
        x == y,
        spec_same_values(algebra, first, second),
    decreases spec_joined(first, render).len(), 0nat,
{
    reveal_strlit("*");
    let star = "*"@;
    if first.len() == 0 && second.len() == 0 {
        assert(spec_joined(first, render) + x =~= x);
        assert(spec_joined(second, render) + y =~= y);
    } else if first.len() == 0 {
        assert(spec_joined(first, render) + x =~= x);
        assert((spec_joined(second, render) + y)[0] == '*');
    } else if second.len() == 0 {
        assert(spec_joined(second, render) + y =~= y);
        assert((spec_joined(first, render) + x)[0] == '*');
    } else {
        let a = first[0];
        let b = second[0];
        let rest_x = spec_joined(first.drop_first(), render) + x;
        let rest_y = spec_joined(second.drop_first(), render) + y;
        assert(spec_joined(first, render) + x =~= star + (a.spec_identifier(render) + rest_x));
        assert(spec_joined(second, render) + y =~= star + (b.spec_identifier(render) + rest_y));
        lemma_same_beginning(
            star,
            a.spec_identifier(render) + rest_x,
            b.spec_identifier(render) + rest_y,
        );
        assert(spec_stops(rest_x)) by {
            if first.drop_first().len() == 0 {
                assert(rest_x =~= x);
            } else {
                assert(rest_x[0] == '*');
            }
        }
        assert(spec_stops(rest_y)) by {
            if second.drop_first().len() == 0 {
                assert(rest_y =~= y);
            } else {
                assert(rest_y[0] == '*');
            }
        }
        lemma_unit_ends(algebra, render, a, rest_x, b, rest_y);
        assert(spec_unscaled(first.drop_first())) by {
            assert forall|i: int| 0 <= i < first.drop_first().len() implies !((
            #[trigger] first.drop_first()[i]) is Scaled) by {
                assert(first.drop_first()[i] == first[i + 1]);
            }
        }
        assert(spec_unscaled(second.drop_first())) by {
            assert forall|i: int| 0 <= i < second.drop_first().len() implies !((
            #[trigger] second.drop_first()[i]) is Scaled) by {
                assert(second.drop_first()[i] == second[i + 1]);
            }
        }
        lemma_joined_ends(algebra, render, first.drop_first(), x, second.drop_first(), y);
        assert forall|i: int| 0 <= i < first.len() implies (#[trigger] first[i]).spec_value(algebra)
            == second[i].spec_value(algebra) by {
            if i > 0 {
                assert(first[i] == first.drop_first()[i - 1]);
                assert(second[i] == second.drop_first()[i - 1]);
            }
        }
    }
}

/// Two expressions with the same canonical text have the same value,
/// wherever products are associative, scaling is multiplying by a
/// constant, constants with the same text stand for the same, and the
/// text of a constant is not empty and plain.
pub proof fn lemma_identifier_decides_value<F, T>(
    algebra: Algebra<F, T>,
    render: spec_fn(F) -> Seq<char>,
    a: Expression<F>,
    b: Expression<F>,
)
    requires
        algebra.spec_canonical(render),
        a.spec_identifier(render) == b.spec_identifier(render),
    ensures
        a.spec_value(algebra) == b.spec_value(algebra),
{
    lemma_scaled_ends(algebra, render, a, Seq::empty(), b, Seq::empty());
}

/// Whether `render` gives the text of every constant that `constant`
/// renders.
pub open spec fn spec_renders<F, CF: Fn(F) -> String>(
    constant: &CF,
    render: spec_fn(F) -> Seq<char>,
) -> bool {
    forall|c: F, s: String| #[trigger]
        call_ensures(constant, (c,), s) ==> s@ == spec_rendered(render, c)
}

impl<F, T> Algebra<F, T> {
    /// Whether the operations of `self` give what the callables of `ev`
    /// return.
    pub open spec fn spec_describes<CF, SF, FF, AF, IF, HF, NF, UF, PF, KF>(
        self,
        ev: Evaluator<'_, CF, SF, FF, AF, IF, HF, NF, UF, PF, KF>,
    ) -> bool where
        CF: Fn(F) -> T,
        SF: Fn(Selector) -> T,
        FF: Fn(FixedQuery) -> T,
        AF: Fn(AdviceQuery) -> T,
        IF: Fn(InstanceQuery) -> T,
        HF: Fn(Challenge) -> T,
        NF: Fn(T) -> T,
        UF: Fn(T, T) -> T,
        PF: Fn(T, T) -> T,
        KF: Fn(T, F) -> T,
     {
        &&& forall|c: F, out: T| #[trigger]
            call_ensures(ev.constant, (c,), out) ==> out == self.spec_constant(c)
        &&& forall|s: Selector, out: T| #[trigger]
            call_ensures(ev.selector_column, (s,), out) ==> out == (self.selector)(s.0)
        &&& forall|q: FixedQuery, out: T| #[trigger]
            call_ensures(ev.fixed_column, (q,), out) ==> out == (self.fixed)(
                q.column_index,
                q.rotation.0,
            )
        &&& forall|q: AdviceQuery, out: T| #[trigger]
            call_ensures(ev.advice_column, (q,), out) ==> out == (self.advice)(
                q.column_index,
                q.rotation.0,
            )
        &&& forall|q: InstanceQuery, out: T| #[trigger]
            call_ensures(ev.instance_column, (q,), out) ==> out == (self.instance)(
                q.column_index,
                q.rotation.0,
            )
        &&& forall|c: Challenge, out: T| #[trigger]
            call_ensures(ev.challenge, (c,), out) ==> out == (self.challenge)(c.index)
        &&& forall|x: T, out: T| #[trigger]
            call_ensures(ev.negated, (x,), out) ==> out == (self.negated)(x)
        &&& forall|x: T, y: T, out: T| #[trigger]
            call_ensures(ev.sum, (x, y), out) ==> out == (self.sum)(x, y)
        &&& forall|x: T, y: T, out: T| #[trigger]
            call_ensures(ev.product, (x, y), out) ==> out == self.spec_times(x, y)
        &&& forall|x: T, f: F, out: T| #[trigger]
            call_ensures(ev.scaled, (x, f), out) ==> out == self.spec_scale(x, f)
    }

    /// What a fold with the callables of `ev` gives is the value of the
    /// expression under the operations that describe them.
    pub proof fn lemma_fold_gives_value<CF, SF, FF, AF, IF, HF, NF, UF, PF, KF>(
        self,
        expr: Expression<F>,
        ev: Evaluator<'_, CF, SF, FF, AF, IF, HF, NF, UF, PF, KF>,
        out: T,
    ) where
        CF: Fn(F) -> T,
        SF: Fn(Selector) -> T,
        FF: Fn(FixedQuery) -> T,
        AF: Fn(AdviceQuery) -> T,
        IF: Fn(InstanceQuery) -> T,
        HF: Fn(Challenge) -> T,
        NF: Fn(T) -> T,
        UF: Fn(T, T) -> T,
        PF: Fn(T, T) -> T,
        KF: Fn(T, F) -> T,

        requires
            self.spec_describes(ev),
            expr.spec_evaluates_to(ev, out),
        ensures
            out == expr.spec_value(self),
        decreases expr,
    {
        match expr {
            Expression::Negated(a) => {
                let x = choose|x: T|
                    a.spec_evaluates_to(ev, x) && #[trigger] call_ensures(ev.negated, (x,), out);
                self.lemma_fold_gives_value(*a, ev, x);
            },
            Expression::Sum(a, b) => {
                let (x, y) = choose|x: T, y: T|
                    a.spec_evaluates_to(ev, x) && b.spec_evaluates_to(ev, y)
                        && #[trigger] call_ensures(ev.sum, (x, y), out);
                self.lemma_fold_gives_value(*a, ev, x);
                self.lemma_fold_gives_value(*b, ev, y);
            },
            Expression::Product(a, b) => {
                let (x, y) = choose|x: T, y: T|
                    a.spec_evaluates_to(ev, x) && b.spec_evaluates_to(ev, y)
                        && #[trigger] call_ensures(ev.product, (x, y), out);
                self.lemma_fold_gives_value(*a, ev, x);
                self.lemma_fold_gives_value(*b, ev, y);
            },
            Expression::Scaled(a, f) => {
                let x = choose|x: T|
                    a.spec_evaluates_to(ev, x) && #[trigger] call_ensures(ev.scaled, (x, f), out);
                self.lemma_fold_gives_value(*a, ev, x);
            },
            _ => {},
        }
    }
}

/// An identifier of an expression is its canonical text under the
/// function that gives what `constant` renders.
pub proof fn lemma_identifier_is_text<F, CF: Fn(F) -> String>(
    expr: Expression<F>,
    constant: &CF,
    render: spec_fn(F) -> Seq<char>,
    out: Seq<char>,
)
    requires
        spec_renders(constant, render),
        expr.spec_is_identifier(constant, out),
    ensures
        out == expr.spec_identifier(render),
    decreases expr,
{
    match expr {
        Expression::Constant(c) => {
            let s = choose|s: String|
                call_ensures(constant, (c,), s) && out == #[trigger] spec_constant_text(s);
        },
        Expression::Negated(a) => {
            let x = choose|x: Seq<char>|
                a.spec_is_identifier(constant, x) && out == #[trigger] spec_negated_text(x);
            lemma_identifier_is_text(*a, constant, render, x);
        },
        Expression::Sum(a, b) => {
            let (x, y) = choose|x: Seq<char>, y: Seq<char>|
                a.spec_is_identifier(constant, x) && b.spec_is_identifier(constant, y) && out
                    == #[trigger] spec_sum_text(x, y);
            lemma_identifier_is_text(*a, constant, render, x);
            lemma_identifier_is_text(*b, constant, render, y);
        },
        Expression::Product(a, b) => {
            let (x, y) = choose|x: Seq<char>, y: Seq<char>|
                a.spec_is_identifier(constant, x) && b.spec_is_identifier(constant, y) && out
                    == #[trigger] spec_product_text(x, y);
            lemma_identifier_is_text(*a, constant, render, x);
            lemma_identifier_is_text(*b, constant, render, y);
        },
        Expression::Scaled(a, f) => {
            let (x, s) = choose|x: Seq<char>, s: String|
                a.spec_is_identifier(constant, x) && call_ensures(constant, (f,), s) && out
                    == #[trigger] spec_scaled_text(x, spec_constant_text(s));
            lemma_identifier_is_text(*a, constant, render, x);
        },
        _ => {},
    }
}

/// Expressions with the same identifier do the same calculation: where
/// two expressions have an identifier in common, the folds of both give
/// the same value, if the products of the fold are associative, scaling
/// is multiplying by a constant, constants with the same text stand for
/// the same, and the text of a constant is not empty and plain.
pub proof fn lemma_same_identifier_same_value<F, T, RF, CF, SF, FF, AF, IF, HF, NF, UF, PF, KF>(
    a: Expression<F>,
    b: Expression<F>,
    constant: &RF,
    render: spec_fn(F) -> Seq<char>,
    text: Seq<char>,
    ev: Evaluator<'_, CF, SF, FF, AF, IF, HF, NF, UF, PF, KF>,
    algebra: Algebra<F, T>,
    x: T,
    y: T,
) where
    RF: Fn(F) -> String,
    CF: Fn(F) -> T,
    SF: Fn(Selector) -> T,
    FF: Fn(FixedQuery) -> T,
    AF: Fn(AdviceQuery) -> T,
    IF: Fn(InstanceQuery) -> T,
    HF: Fn(Challenge) -> T,
    NF: Fn(T) -> T,
    UF: Fn(T, T) -> T,
    PF: Fn(T, T) -> T,
    KF: Fn(T, F) -> T,

    requires
        spec_renders(constant, render),
        algebra.spec_canonical(render),
        algebra.spec_describes(ev),
        a.spec_is_identifier(constant, text),
        b.spec_is_identifier(constant, text),
        a.spec_evaluates_to(ev, x),
        b.spec_evaluates_to(ev, y),
    ensures
        x == y,
{
    lemma_identifier_is_text(a, constant, render, text);
    lemma_identifier_is_text(b, constant, render, text);
    algebra.lemma_fold_gives_value(a, ev, x);
    algebra.lemma_fold_gives_value(b, ev, y);
    lemma_identifier_decides_value(algebra, render, a, b);
}

} // verus!

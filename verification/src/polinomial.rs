//! The shape of a polynomial: which coefficients are stored, how they are
//! trimmed and printed, and which way of solving its equation applies.
//!
//! A coefficient is held by what these decisions read of it: whether it is
//! zero, whether it is negative, whether it is 1 or -1, and its magnitude as
//! decimal text. The numbers themselves stay with the caller.

use crate::model::views;
use crate::text::{decimal_digits, decimal_text};
use vstd::prelude::*;
use vstd::string::*;

verus! {

/// What is read of one coefficient.
#[derive(Debug, Clone, PartialEq, Eq)]
pub struct Coefficient {
    /// The coefficient equals zero.
    pub zero: bool,
    /// The coefficient is below zero.
    pub negative: bool,
    /// The coefficient is 1 or -1.
    pub unit: bool,
    /// The coefficient without its sign, in decimal.
    pub magnitude: String,
}

/// A coefficient as contracts speak of it.
pub struct CoefficientView {
    pub zero: bool,
    pub negative: bool,
    pub unit: bool,
    pub magnitude: Seq<char>,
}

impl View for Coefficient {
    type V = CoefficientView;

    open spec fn view(&self) -> CoefficientView {
        CoefficientView {
            zero: self.zero,
            negative: self.negative,
            unit: self.unit,
            magnitude: self.magnitude@,
        }
    }
}

/// The coefficient zero.
pub open spec fn zero_coefficient() -> CoefficientView {
    CoefficientView { zero: true, negative: false, unit: false, magnitude: seq!['0'] }
}

impl Coefficient {
    /// The coefficient zero.
    pub fn zero() -> (c: Coefficient)
        ensures
            c@ == zero_coefficient(),
    {
        let mut magnitude = String::new();
        magnitude.push('0');
        Coefficient { zero: true, negative: false, unit: false, magnitude }
    }
}

/// A sequence of coefficients without its zeros at the high end, but for
/// the one coefficient that always stays.
pub open spec fn trimmed(c: Seq<CoefficientView>) -> Seq<CoefficientView>
    decreases c.len(),
{
    if c.len() > 1 && c.last().zero {
        trimmed(c.drop_last())
    } else {
        c
    }
}

/// Trimming keeps a beginning of the coefficients and drops only zeros;
/// what it keeps is a single coefficient or ends in one that is not zero.
/// So the degree of a trimmed polynomial never counts a zero at the high
/// end, apart from the one coefficient that always stays.
pub proof fn lemma_trimmed_degree(c: Seq<CoefficientView>)
    requires
        c.len() > 0,
    ensures
        0 < trimmed(c).len() <= c.len(),
        trimmed(c) == c.take(trimmed(c).len() as int),
        trimmed(c).len() == 1 || !trimmed(c).last().zero,
        forall|i: int| trimmed(c).len() <= i < c.len() ==> (#[trigger] c[i]).zero,
    decreases c.len(),
{
    if c.len() > 1 && c.last().zero {
        lemma_trimmed_degree(c.drop_last());
        assert(c.drop_last().take(trimmed(c).len() as int) =~= c.take(trimmed(c).len() as int));
        assert forall|i: int| trimmed(c).len() <= i < c.len() implies (#[trigger] c[i]).zero by {
            if i < c.len() - 1 {
                assert(c.drop_last()[i] == c[i]);
            }
        }
    } else {
        assert(c.take(c.len() as int) =~= c);
    }
}

/// A sequence of coefficients filled with zeros up to the length `len`.
pub open spec fn padded(c: Seq<CoefficientView>, len: nat) -> Seq<CoefficientView> {
    if c.len() >= len {
        c
    } else {
        c + Seq::new((len - c.len()) as nat, |i: int| zero_coefficient())
    }
}

/// Every coefficient of a power above `i` is zero.
pub open spec fn none_above(c: Seq<CoefficientView>, i: int) -> bool {
    forall|j: int| i < j < c.len() ==> (#[trigger] c[j]).zero
}

/// How a power of the variable is written: `x` for the first power, `x^n`
/// for any other.
pub open spec fn power_text(power: nat) -> Seq<char> {
    if power == 1 {
        seq!['x']
    } else {
        seq!['x', '^'] + decimal_digits(power)
    }
}

/// What joins a term to the text before it: the term that leads carries a
/// bare `-` where it is negative; every other term is joined by ` + ` or
/// ` - `.
pub open spec fn joiner_text(c: CoefficientView, leading: bool) -> Seq<char> {
    if leading {
        if c.negative {
            seq!['-']
        } else {
            Seq::empty()
        }
    } else if c.negative {
        seq![' ', '-', ' ']
    } else {
        seq![' ', '+', ' ']
    }
}

/// A term without its sign: the constant term is its magnitude; in a term
/// with the variable the magnitude 1 is left out, except behind the `-` of
/// a term that leads.
pub open spec fn body_text(c: CoefficientView, power: nat, leading: bool) -> Seq<char> {
    if power == 0 {
        c.magnitude
    } else if c.unit && !(leading && c.negative) {
        power_text(power)
    } else {
        c.magnitude + seq!['*'] + power_text(power)
    }
}

/// How one term is written.
pub open spec fn term_text(c: CoefficientView, power: nat, leading: bool) -> Seq<char> {
    joiner_text(c, leading) + body_text(c, power, leading)
}

/// The terms of the powers from `i` up, the highest power first; zero
/// coefficients are left out.
pub open spec fn rendered_from(c: Seq<CoefficientView>, i: int) -> Seq<char>
    decreases c.len() - i,
{
    if i < 0 || i >= c.len() {
        Seq::empty()
    } else if c[i].zero {
        rendered_from(c, i + 1)
    } else {
        rendered_from(c, i + 1) + term_text(c[i], i as nat, none_above(c, i))
    }
}

/// The text of a polynomial: `0` where every coefficient is zero, its
/// terms from the highest power down otherwise.
pub open spec fn rendered(c: Seq<CoefficientView>) -> Seq<char> {
    if none_above(c, -1) {
        seq!['0']
    } else {
        rendered_from(c, 0)
    }
}

/// The line that shows an equation in its reduced form.
pub open spec fn reduced_form_text(c: Seq<CoefficientView>) -> Seq<char> {
    "Reduced form: "@ + rendered(c) + " = 0"@
}

/// The line that shows the degree of a polynomial.
pub open spec fn degree_text(c: Seq<CoefficientView>) -> Seq<char> {
    "Polinomial degree: "@ + decimal_digits((c.len() - 1) as nat)
}

/// The ways in which the equation of a polynomial with zero is answered.
#[derive(Debug, Clone, Copy, PartialEq, Eq)]
pub enum Method {
    /// Degree 0 with the coefficient zero: every value is a solution.
    Tautology,
    /// Degree 0 with another coefficient: no value is a solution.
    Inconsistent,
    /// Degree 1: one solution in closed form.
    Linear,
    /// Degree 2: by the sign of the discriminant.
    Quadratic,
    /// Degree 3 and above: a search from a starting point.
    Search,
}

/// The method for a polynomial with the coefficients `c`.
pub open spec fn method_of(c: Seq<CoefficientView>) -> Method {
    if c.len() <= 1 {
        if c[0].zero {
            Method::Tautology
        } else {
            Method::Inconsistent
        }
    } else if c.len() == 2 {
        Method::Linear
    } else if c.len() == 3 {
        Method::Quadratic
    } else {
        Method::Search
    }
}

/// The roots of a quadratic equation.
#[derive(Debug, Clone, Copy, PartialEq, Eq)]
pub enum Roots {
    /// The discriminant is negative: two complex conjugate roots.
    ComplexPair,
    /// The discriminant is zero: one real root.
    Double,
    /// Otherwise: two real roots.
    TwoReal,
}

/// The roots of a polynomial of degree 2 by its discriminant; none for a
/// polynomial of another degree.
pub open spec fn roots_of(c: Seq<CoefficientView>, discriminant: CoefficientView) -> Option<Roots> {
    if c.len() != 3 {
        None
    } else if discriminant.negative {
        Some(Roots::ComplexPair)
    } else if discriminant.zero {
        Some(Roots::Double)
    } else {
        Some(Roots::TwoReal)
    }
}

/// Appends one term to a text; `leading` tells that the text holds no term
/// yet.
fn write_term(out: &mut String, coef: &Coefficient, power: usize, leading: bool)
    ensures
        final(out)@ == old(out)@ + term_text(coef@, power as nat, leading),
{
    if !leading {
        out.push(' ');
        if coef.negative {
            out.push('-');
        } else {
            out.push('+');
        }
        out.push(' ');
    } else if coef.negative {
        out.push('-');
    }
    assert(out@ =~= old(out)@ + joiner_text(coef@, leading));
    let ghost joined = out@;
    if power == 0 {
        out.append(coef.magnitude.as_str());
    } else {
        if !coef.unit || (leading && coef.negative) {
            out.append(coef.magnitude.as_str());
            out.push('*');
        }
        out.push('x');
        if power != 1 {
            out.push('^');
            let digits = decimal_text(power);
            out.append(digits.as_str());
        }
    }
    assert(out@ =~= joined + body_text(coef@, power as nat, leading));
    assert(out@ =~= old(out)@ + term_text(coef@, power as nat, leading));
}

/// A copy of a coefficient.
fn copy_of(coef: &Coefficient) -> (copy: Coefficient)
    ensures
        copy@ == coef@,
{
    Coefficient {
        zero: coef.zero,
        negative: coef.negative,
        unit: coef.unit,
        magnitude: coef.magnitude.clone(),
    }
}

/// The coefficients of a polynomial, the constant first. There is always at
/// least one: the constant has a place of its own. Whatever makes or changes
/// a polynomial leaves it trimmed, so the stored length is the degree plus
/// one.
#[derive(Debug, Clone, PartialEq, Eq)]
pub struct Polinomial {
    constant: Coefficient,
    higher: Vec<Coefficient>,
}

impl View for Polinomial {
    type V = Seq<CoefficientView>;

    closed spec fn view(&self) -> Seq<CoefficientView> {
        seq![self.constant@] + views(self.higher@)
    }
}

impl Polinomial {
    /// A polynomial stores at least one coefficient.
    pub proof fn lemma_never_empty(&self)
        ensures
            self@.len() > 0,
    {
    }

    /// The polynomial with the given coefficients, trimmed. Without any
    /// coefficient it is the zero polynomial.
    pub fn new(coefficients: Vec<Coefficient>) -> (p: Polinomial)
        ensures
            p@ == trimmed(padded(views(coefficients@), 1)),
            p@.len() == 1 || !p@.last().zero,
    {
        let ghost given = views(coefficients@);
        let mut higher = coefficients;
        let constant = if higher.len() == 0 {
            Coefficient::zero()
        } else {
            higher.remove(0)
        };
        let mut p = Polinomial { constant, higher };
        assert(p@ =~= padded(given, 1));
        p.simplify_grade();
        p
    }

    /// Stores `coef` as the coefficient of the power `grade`, after filling
    /// with zeros up to that power where the polynomial is shorter, and
    /// trims the result: a zero stored at the high end does not stay, and
    /// the degree never counts it.
    pub fn set_coef(&mut self, coef: Coefficient, grade: usize)
        ensures
            final(self)@ == trimmed(
                padded(old(self)@, (grade + 1) as nat).update(grade as int, coef@),
            ),
            final(self)@.len() == 1 || !final(self)@.last().zero,
    {
        if grade == 0 {
            self.constant = coef;
            assert(self@ =~= padded(old(self)@, 1).update(0, coef@));
        } else {
            while self.higher.len() < grade
                invariant
                    self.higher.len() <= grade || self.higher.len() == old(self).higher.len(),
                    self@ == padded(old(self)@, (self.higher.len() + 1) as nat),
                decreases grade - self.higher.len(),
            {
                let ghost before = self@;
                self.higher.push(Coefficient::zero());
                assert(self@ =~= before.push(zero_coefficient()));
                assert(self@ =~= padded(old(self)@, (self.higher.len() + 1) as nat));
            }
            let ghost before = self@;
            self.higher[grade - 1] = coef;
            assert(self@ =~= before.update(grade as int, coef@));
        }
        self.simplify_grade();
    }

    /// The stored coefficients, the constant first.
    pub fn coefficients(&self) -> (stored: Vec<Coefficient>)
        ensures
            views(stored@) == self@,
    {
        let mut stored: Vec<Coefficient> = Vec::new();
        stored.push(copy_of(&self.constant));
        let mut i: usize = 0;
        while i < self.higher.len()
            invariant
                i <= self.higher.len(),
                views(stored@) == self@.take(i + 1),
            decreases self.higher.len() - i,
        {
            let ghost before = views(stored@);
            stored.push(copy_of(&self.higher[i]));
            assert(self@[i + 1] == self.higher@[i as int]@);
            assert(views(stored@) =~= before.push(self@[i + 1]));
            i += 1;
            assert(self@.take(i + 1) =~= self@.take(i as int).push(self@[i as int]));
        }
        assert(self@.take(self@.len() as int) =~= self@);
        stored
    }

    /// The degree: the highest stored power.
    pub fn degree(&self) -> (d: usize)
        ensures
            d == self@.len() - 1,
    {
        self.higher.len()
    }

    /// Trims the polynomial: drops the zeros at the high end, but for the
    /// one coefficient that always stays.
    pub fn simplify_grade(&mut self)
        ensures
            final(self)@ == trimmed(old(self)@),
            final(self)@.len() == 1 || !final(self)@.last().zero,
    {
        proof {
            lemma_trimmed_degree(self@);
        }
        while self.higher.len() > 0 && self.higher[self.higher.len() - 1].zero
            invariant
                trimmed(self@) == trimmed(old(self)@),
            decreases self.higher.len(),
        {
            let ghost before = self@;
            self.higher.pop();
            assert(self@ =~= before.drop_last());
        }
    }

    /// Writes the polynomial, the highest power first.
    pub fn render(&self) -> (out: String)
        ensures
            out@ == rendered(self@),
    {
        let mut out = String::new();
        let mut started = false;
        let mut i: usize = self.higher.len();
        while i > 0
            invariant
                i <= self.higher.len(),
                started <==> !none_above(self@, i as int),
                !started ==> out@.len() == 0,
                out@ == rendered_from(self@, i + 1),
            decreases i,
        {
            let coef = &self.higher[i - 1];
            assert(self@[i as int] == coef@);
            assert(none_above(self@, i - 1) <==> none_above(self@, i as int) && self@[i as int].zero);
            if !coef.zero {
                write_term(&mut out, coef, i, !started);
                started = true;
            }
            i -= 1;
        }
        assert(self@[0] == self.constant@);
        assert(none_above(self@, -1) <==> none_above(self@, 0) && self@[0].zero);
        if !self.constant.zero {
            write_term(&mut out, &self.constant, 0, !started);
        } else if !started {
            out.push('0');
        }
        out
    }

    /// Writes the line that shows the equation of the polynomial with zero.
    pub fn reduced_form(&self) -> (out: String)
        ensures
            out@ == reduced_form_text(self@),
    {
        let mut out = "Reduced form: ".to_owned();
        let written = self.render();
        out.append(written.as_str());
        out.append(" = 0");
        out
    }

    /// Writes the line that shows the degree of the polynomial.
    pub fn degree_line(&self) -> (out: String)
        ensures
            out@ == degree_text(self@),
    {
        let mut out = "Polinomial degree: ".to_owned();
        let digits = decimal_text(self.degree());
        out.append(digits.as_str());
        out
    }

    /// Tells which way of solving applies to the equation of the polynomial
    /// with zero.
    pub fn solver_msg(&self) -> (method: Method)
        ensures
            method == method_of(self@),
    {
        assert(self@[0] == self.constant@);
        let above = self.higher.len();
        if above == 0 {
            if self.constant.zero {
                Method::Tautology
            } else {
                Method::Inconsistent
            }
        } else if above == 1 {
            Method::Linear
        } else if above == 2 {
            Method::Quadratic
        } else {
            Method::Search
        }
    }

    /// Tells the roots of a polynomial of degree 2 from what is read of its
    /// discriminant; `None` for a polynomial of another degree.
    pub fn solver_msg2(&self, discriminant: &Coefficient) -> (roots: Option<Roots>)
        ensures
            roots == roots_of(self@, discriminant@),
    {
        if self.higher.len() != 2 {
            None
        } else if discriminant.negative {
            Some(Roots::ComplexPair)
        } else if discriminant.zero {
            Some(Roots::Double)
        } else {
            Some(Roots::TwoReal)
        }
    }
}

} // verus!

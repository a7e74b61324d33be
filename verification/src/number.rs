//! The arithmetic that every formula of the bot is written over.
//!
//! Prices, quantities and percentages are values of a type `S: Number`. The
//! formulas are proved for every such type: a contract names the operations
//! and the order in which they are applied, and says nothing of how one of
//! them rounds. [`crate::fixed::Fixed`] is an implementation whose operations
//! are proved here; a program that trades on binary64 implements the trait for
//! a newtype of its own, one operation of the hardware per method.
use vstd::prelude::*;

verus! {

/// The largest integer for which the order laws on ratios are stated: more than
/// any constant of a formula.
pub const LITERAL_LIMIT: u64 = 1_000_000;

/// Values that the formulas speak of: the operations, as functions.
///
/// The formulas are stated over this trait alone. [`Number`] adds the operations
/// that a program runs. The real numbers have no such operations, but they are
/// values, so a formula can be looked at without any rounding.
pub trait Value: Sized {
    /// `self + other`
    closed spec fn sum(self, other: Self) -> Self {
        arbitrary()
    }

    /// `self - other`
    closed spec fn diff(self, other: Self) -> Self {
        arbitrary()
    }

    /// `self * other`
    closed spec fn prod(self, other: Self) -> Self {
        arbitrary()
    }

    /// `self / other`
    closed spec fn quot(self, other: Self) -> Self {
        arbitrary()
    }

    /// `-self`
    closed spec fn negation(self) -> Self {
        arbitrary()
    }

    /// `|self|`
    closed spec fn size(self) -> Self {
        arbitrary()
    }

    /// The nearest integer.
    closed spec fn nearest(self) -> Self {
        arbitrary()
    }

    /// What is left of the number without its integer part.
    closed spec fn frac_part(self) -> Self {
        arbitrary()
    }

    /// The square root.
    closed spec fn root(self) -> Self {
        arbitrary()
    }

    /// `self < other`
    closed spec fn below(self, other: Self) -> bool {
        arbitrary()
    }

    /// `self <= other`
    closed spec fn at_most(self, other: Self) -> bool {
        arbitrary()
    }

    /// The number that stands for the integer `n`.
    closed spec fn count(n: u64) -> Self {
        arbitrary()
    }

    /// The integer part as an unsigned integer, at the nearer end of the range
    /// when it lies outside.
    closed spec fn whole(self) -> u64 {
        arbitrary()
    }

    /// The number above all others.
    closed spec fn top() -> Self {
        arbitrary()
    }

    /// The number below all others.
    closed spec fn bottom() -> Self {
        arbitrary()
    }

    /// The threshold under which a range or a balance counts as nothing: two to
    /// the power of minus fifty-two, or the least positive number where that is
    /// more.
    closed spec fn tiny() -> Self {
        arbitrary()
    }

    /// The threshold under which a deviation counts as none: a trillionth, or the
    /// least positive number where that is more.
    closed spec fn faint() -> Self {
        arbitrary()
    }

    /// The least base of a daily return: a billionth, or the least positive number
    /// where that is more.
    closed spec fn slight() -> Self {
        arbitrary()
    }

    /// The decimal text with `places` digits behind the point.
    closed spec fn digits(self, places: u8) -> Seq<char> {
        arbitrary()
    }

    /// The number that a text denotes, if it denotes one.
    closed spec fn reading(text: Seq<char>) -> Option<Self> {
        arbitrary()
    }
}

/// A type of numbers with the operations that the formulas use.
///
/// Every method's result is a function of its arguments, named by the spec
/// function of [`Value`] that its contract names.
pub trait Number: Value + Copy {
    fn plus(self, other: Self) -> (r: Self)
        ensures
            r == self.sum(other),
    ;

    fn minus(self, other: Self) -> (r: Self)
        ensures
            r == self.diff(other),
    ;

    fn times(self, other: Self) -> (r: Self)
        ensures
            r == self.prod(other),
    ;

    fn over(self, other: Self) -> (r: Self)
        ensures
            r == self.quot(other),
    ;

    fn negate(self) -> (r: Self)
        ensures
            r == self.negation(),
    ;

    fn abs(self) -> (r: Self)
        ensures
            r == self.size(),
    ;

    fn round(self) -> (r: Self)
        ensures
            r == self.nearest(),
    ;

    fn fract(self) -> (r: Self)
        ensures
            r == self.frac_part(),
    ;

    fn sqrt(self) -> (r: Self)
        ensures
            r == self.root(),
    ;

    fn lt(self, other: Self) -> (r: bool)
        ensures
            r == self.below(other),
    ;

    fn le(self, other: Self) -> (r: bool)
        ensures
            r == self.at_most(other),
    ;

    fn from_u64(n: u64) -> (r: Self)
        ensures
            r == Self::count(n),
    ;

    fn to_u64(self) -> (r: u64)
        ensures
            r == self.whole(),
    ;

    fn infinity() -> (r: Self)
        ensures
            r == Self::top(),
    ;

    fn neg_infinity() -> (r: Self)
        ensures
            r == Self::bottom(),
    ;

    /// Two to the power of minus fifty-two, or the least positive number.
    fn epsilon() -> (r: Self)
        ensures
            r == Self::tiny(),
    ;

    /// A trillionth, or the least positive number.
    fn trillionth() -> (r: Self)
        ensures
            r == Self::faint(),
    ;

    /// A billionth, or the least positive number.
    fn billionth() -> (r: Self)
        ensures
            r == Self::slight(),
    ;

    fn to_text(self, places: u8) -> (r: String)
        ensures
            r@ == self.digits(places),
    ;

    fn parse(text: &str) -> (r: Option<Self>)
        ensures
            r == Self::reading(text@),
    ;
}

/// Numbers whose order is kept by the operations, whatever their rounding.
///
/// The laws hold of a type with a value that is not a number, as long as every
/// comparison with that value is false.
pub trait Ordered: Value {
    /// Less excludes greater, and implies less or equal.
    proof fn law_strict(a: Self, b: Self)
        ensures
            a.below(b) ==> a.at_most(b) && !b.at_most(a) && !b.below(a),
    ;

    /// The order is transitive.
    proof fn law_chain(a: Self, b: Self, c: Self)
        ensures
            a.at_most(b) && b.at_most(c) ==> a.at_most(c),
            a.at_most(b) && b.below(c) ==> a.below(c),
            a.below(b) && b.at_most(c) ==> a.below(c),
    ;

    /// Two values that compare with themselves compare with each other.
    proof fn law_compare(a: Self, b: Self)
        ensures
            a.at_most(a) && b.at_most(b) ==> a.below(b) || b.at_most(a),
            a.at_most(b) ==> a.at_most(a) && b.at_most(b),
    ;

    /// Integers keep their order, and every integer but zero is positive.
    proof fn law_counts(n: u64, m: u64)
        ensures
            n <= m ==> Self::count(n).at_most(Self::count(m)),
            0 < n ==> Self::count(0).below(Self::count(n)),
    ;

    /// Ratios of small integers are ordered as the fractions are.
    proof fn law_ratios(n1: u64, d1: u64, n2: u64, d2: u64)
        requires
            n1 <= LITERAL_LIMIT,
            n2 <= LITERAL_LIMIT,
            0 < d1 <= LITERAL_LIMIT,
            0 < d2 <= LITERAL_LIMIT,
            n1 * d2 <= n2 * d1,
        ensures
            Self::count(n1).quot(Self::count(d1)).at_most(Self::count(n2).quot(Self::count(d2))),
    ;

    /// A ratio of small positive integers is positive.
    proof fn law_positive_ratio(n: u64, d: u64)
        requires
            0 < n <= LITERAL_LIMIT,
            0 < d <= LITERAL_LIMIT,
        ensures
            Self::count(0).below(Self::count(n).quot(Self::count(d))),
    ;

    /// A ratio over one is the integer itself.
    proof fn law_ratio_of_one(n: u64)
        requires
            n <= LITERAL_LIMIT,
        ensures
            Self::count(n).quot(Self::count(1)) == Self::count(n),
    ;

    /// Taking something not negative away leaves no more than there was, and
    /// taking no more than there was leaves nothing negative.
    proof fn law_diff(a: Self, b: Self)
        ensures
            !a.below(b) ==> !a.diff(b).below(Self::count(0)),
            !b.below(Self::count(0)) ==> !a.below(a.diff(b)),
    ;

    /// Putting something not negative to a number does not make it smaller,
    /// and keeps it from being negative.
    proof fn law_sum(a: Self, b: Self)
        ensures
            !b.below(Self::count(0)) ==> !a.sum(b).below(a),
            !a.below(Self::count(0)) && !b.below(Self::count(0)) ==> !a.sum(b).below(
                Self::count(0),
            ),
    ;

    /// The product of numbers that are not negative is not negative.
    proof fn law_prod(a: Self, b: Self)
        ensures
            !a.below(Self::count(0)) && !b.below(Self::count(0)) ==> !a.prod(b).below(
                Self::count(0),
            ),
    ;

    /// Dividing by a positive number keeps the sign, and dividing by one or
    /// more makes nothing larger.
    proof fn law_quot(a: Self, b: Self)
        ensures
            !a.below(Self::count(0)) && (Self::count(0).below(b) || !b.at_most(b)) ==> !a.quot(
                b,
            ).below(Self::count(0)),
            !a.below(Self::count(0)) && !b.below(Self::count(1)) ==> !a.below(a.quot(b)),
    ;

    /// Zero is less than one.
    proof fn law_one()
        ensures
            Self::count(0).below(Self::count(1)),
    ;

    /// What is not less stays so when the same is put to both or taken from both,
    /// both are taken from the same the other way round, both are scaled by the
    /// same, or both are rounded.
    proof fn law_monotone(a: Self, b: Self, c: Self)
        ensures
            !a.below(b) ==> !c.sum(a).below(c.sum(b)),
            !a.below(b) ==> !a.sum(c).below(b.sum(c)),
            !a.below(b) ==> !c.diff(b).below(c.diff(a)),
            !a.below(b) ==> !a.diff(c).below(b.diff(c)),
            !a.below(b) && !c.below(Self::count(0)) ==> !a.prod(c).below(b.prod(c)),
            !a.below(b) && !c.below(Self::count(0)) ==> !c.prod(a).below(c.prod(b)),
            !a.below(b) && Self::count(0).below(c) ==> !a.quot(c).below(b.quot(c)),
            !a.below(b) ==> !a.nearest().below(b.nearest()),
    ;

    /// The thresholds are positive.
    proof fn law_thresholds()
        ensures
            Self::count(0).below(Self::tiny()),
            Self::count(0).below(Self::faint()),
            Self::count(0).below(Self::slight()),
    ;

    /// A magnitude is not negative.
    proof fn law_size(a: Self)
        ensures
            !a.size().below(Self::count(0)),
    ;
}

/// Numbers without a value that compares with nothing, and with a zero that
/// behaves as one.
pub trait Total: Ordered {
    /// Every value compares with itself.
    proof fn law_total(a: Self)
        ensures
            a.at_most(a),
    ;

    /// Values that compare as equal are equal.
    proof fn law_equal(a: Self, b: Self)
        ensures
            a.at_most(b) && b.at_most(a) ==> a == b,
    ;

    /// Zero changes no sum, brings every product to zero, is not changed by a
    /// division, and is its own root; nothing is left of a number without itself.
    proof fn law_zero(a: Self)
        ensures
            Self::count(0).sum(a) == a,
            a.sum(Self::count(0)) == a,
            Self::count(0).prod(a) == Self::count(0),
            Self::count(0).below(a) ==> Self::count(0).quot(a) == Self::count(0),
            a.diff(a) == Self::count(0),
            Self::count(0).root() == Self::count(0),
    ;

    /// One taken from two leaves one, and twice a half is one; one and zero are
    /// rounded to themselves.
    proof fn law_two()
        ensures
            Self::count(2).diff(Self::count(1)) == Self::count(1),
            Self::count(1).quot(Self::count(2)).prod(Self::count(2)) == Self::count(1),
            Self::count(0).nearest() == Self::count(0),
            Self::count(1).nearest() == Self::count(1),
    ;

    /// One changes no product, minus one negates, and a number is once in itself.
    proof fn law_unit(a: Self)
        ensures
            a.prod(Self::count(1)) == a,
            Self::count(1).prod(a) == a,
            a.prod(Self::count(1).negation()) == a.negation(),
            Self::count(0).below(a) ==> a.quot(a) == Self::count(1),
    ;

    /// To put the opposite to a number is to take it away; a difference has one
    /// magnitude both ways, and what is not negative is its own.
    proof fn law_opposite(a: Self, b: Self)
        ensures
            !b.below(Self::count(0)) ==> a.sum(b.negation()) == a.diff(b),
            a.diff(b).size() == b.diff(a).size(),
            !a.below(Self::count(0)) ==> a.size() == a,
    ;

    /// What is negated changes its sign.
    proof fn law_negation(a: Self)
        ensures
            !a.below(Self::count(0)) ==> !Self::count(0).below(a.negation()),
            !Self::count(0).below(a) ==> !a.negation().below(Self::count(0)),
    ;
}

/// The constant `n / d`.
pub open spec fn ratio<S: Value>(n: u64, d: u64) -> S {
    S::count(n).quot(S::count(d))
}

/// The constant `n / d`.
pub fn lit<S: Number>(n: u64, d: u64) -> (r: S)
    ensures
        r == ratio::<S>(n, d),
{
    S::from_u64(n).over(S::from_u64(d))
}

/// Whether the value compares with itself.
pub open spec fn is_number<S: Value>(a: S) -> bool {
    a.at_most(a)
}

/// The larger of two; the other one where one is not a number.
pub open spec fn larger<S: Value>(a: S, b: S) -> S {
    if !is_number(a) || a.below(b) {
        b
    } else {
        a
    }
}

pub fn max_of<S: Number>(a: S, b: S) -> (r: S)
    ensures
        r == larger(a, b),
{
    if !a.le(a) || a.lt(b) {
        b
    } else {
        a
    }
}

/// The smaller of two; the other one where one is not a number.
pub open spec fn smaller<S: Value>(a: S, b: S) -> S {
    if !is_number(a) || b.below(a) {
        b
    } else {
        a
    }
}

pub fn min_of<S: Number>(a: S, b: S) -> (r: S)
    ensures
        r == smaller(a, b),
{
    if !a.le(a) || b.lt(a) {
        b
    } else {
        a
    }
}

/// `x` brought into the range from `lo` to `hi`.
pub open spec fn clamped<S: Value>(x: S, lo: S, hi: S) -> S {
    if x.below(lo) {
        lo
    } else if hi.below(x) {
        hi
    } else {
        x
    }
}

pub fn clamp<S: Number>(x: S, lo: S, hi: S) -> (r: S)
    ensures
        r == clamped(x, lo, hi),
{
    if x.lt(lo) {
        lo
    } else if hi.lt(x) {
        hi
    } else {
        x
    }
}

/// The numbers of a sequence added up from the left, starting at zero.
pub open spec fn total<S: Value>(s: Seq<S>) -> S
    decreases s.len(),
{
    if s.len() == 0 {
        S::count(0)
    } else {
        total(s.drop_last()).sum(s.last())
    }
}

/// One more number comes last in a total.
pub proof fn lemma_total_push<S: Value>(s: Seq<S>, x: S)
    ensures
        total(s.push(x)) == total(s).sum(x),
{
    assert(s.push(x).drop_last() =~= s);
}

pub fn sum_of<S: Number>(xs: &[S]) -> (r: S)
    ensures
        r == total(xs@),
{
    let mut acc = S::from_u64(0);
    let mut i: usize = 0;
    while i < xs.len()
        invariant
            i <= xs.len(),
            acc == total(xs@.take(i as int)),
        decreases xs.len() - i,
    {
        proof {
            assert(xs@.take(i + 1) =~= xs@.take(i as int).push(xs@[i as int]));
            lemma_total_push(xs@.take(i as int), xs@[i as int]);
        }
        acc = acc.plus(xs[i]);
        i += 1;
    }
    assert(xs@.take(i as int) =~= xs@);
    acc
}

/// A clamped value lies in its range: it is not below the lower end nor above
/// the upper one.
pub proof fn law_clamped_in_range<S: Ordered>(x: S, lo: S, hi: S)
    requires
        lo.at_most(hi),
    ensures
        !clamped(x, lo, hi).below(lo),
        !hi.below(clamped(x, lo, hi)),
{
    S::law_strict(lo, lo);
    S::law_strict(hi, hi);
    S::law_strict(hi, lo);
    S::law_compare(lo, hi);
}

/// The larger of two numbers is not below either of them.
pub proof fn law_larger<S: Ordered>(a: S, b: S)
    ensures
        !larger(a, b).below(a),
        !larger(a, b).below(b),
{
    S::law_compare(b, a);
    S::law_strict(a, b);
    S::law_strict(a, a);
    S::law_strict(b, b);
    S::law_strict(b, a);
    S::law_compare(a, b);
}

/// The smaller of two numbers is not above either of them.
pub proof fn law_smaller<S: Ordered>(a: S, b: S)
    ensures
        !a.below(smaller(a, b)),
        !b.below(smaller(a, b)),
{
    S::law_strict(a, b);
    S::law_strict(a, a);
    S::law_strict(b, b);
    S::law_strict(b, a);
    S::law_compare(a, b);
}

/// The integers are ordered as usual.
pub proof fn lemma_counts<S: Ordered>(n: u64, m: u64)
    requires
        n <= m,
    ensures
        S::count(n).at_most(S::count(m)),
{
    S::law_counts(n, m);
}

/// A total of numbers none of which is negative is not negative.
pub proof fn lemma_total_not_negative<S: Ordered>(s: Seq<S>)
    requires
        forall|i: int| 0 <= i < s.len() ==> !(#[trigger] s[i]).below(S::count(0)),
    ensures
        !total(s).below(S::count(0)),
    decreases s.len(),
{
    S::law_strict(S::count(0), S::count(0));
    if s.len() > 0 {
        lemma_total_not_negative(s.drop_last());
        let t = total(s.drop_last());
        S::law_sum(t, s.last());
    }
}

/// Not to be less is transitive where everything compares.
pub proof fn lemma_not_below_chain<S: Total>(a: S, b: S, c: S)
    requires
        !a.below(b),
        !b.below(c),
    ensures
        !a.below(c),
        b.at_most(a),
        c.at_most(a),
{
    S::law_total(a);
    S::law_total(b);
    S::law_total(c);
    S::law_compare(a, b);
    S::law_compare(b, c);
    S::law_chain(c, b, a);
    S::law_strict(a, c);
}

/// Where everything compares, not to be less is to be at least as much.
pub proof fn lemma_not_below<S: Total>(a: S, b: S)
    ensures
        !a.below(b) <==> b.at_most(a),
{
    S::law_total(a);
    S::law_total(b);
    S::law_compare(a, b);
    S::law_strict(a, b);
}

/// Cutting off keeps the order.
pub proof fn lemma_clamped_in_order<S: Total>(a: S, b: S, lo: S, hi: S)
    requires
        !a.below(b),
        !hi.below(lo),
    ensures
        !clamped(a, lo, hi).below(clamped(b, lo, hi)),
{
    let x = clamped(a, lo, hi);
    let y = clamped(b, lo, hi);
    lemma_not_below(lo, lo);
    lemma_not_below(hi, hi);
    lemma_not_below(hi, lo);
    S::law_total(lo);
    S::law_total(hi);
    law_clamped_in_range(a, lo, hi);
    law_clamped_in_range(b, lo, hi);
    if a.below(lo) {
        lemma_not_below(lo, a);
        S::law_strict(a, lo);
        if !b.below(lo) {
            lemma_not_below_chain(a, b, lo);
        }
    } else if !b.below(lo) && !hi.below(a) && hi.below(b) {
        S::law_strict(hi, b);
        lemma_not_below(b, hi);
        lemma_not_below_chain(a, b, hi);
        lemma_not_below(hi, a);
        S::law_strict(hi, a);
        lemma_not_below(b, a);
        S::law_chain(a, hi, b);
        S::law_strict(a, b);
    }
}

/// The sum of zeros is zero.
pub proof fn lemma_total_of_zeros<S: Total>(xs: Seq<S>)
    requires
        forall|i: int| 0 <= i < xs.len() ==> #[trigger] xs[i] == S::count(0),
    ensures
        total(xs) == S::count(0),
    decreases xs.len(),
{
    if xs.len() > 0 {
        assert forall|i: int| 0 <= i < xs.drop_last().len() implies #[trigger] xs.drop_last()[i]
            == S::count(0) by {
            assert(xs[i] == S::count(0));
        }
        lemma_total_of_zeros(xs.drop_last());
        assert(xs[xs.len() - 1] == S::count(0));
        S::law_zero(S::count(0));
    }
}

} // verus!

//! Runtime values: exact rational numbers and arrays of them.
//!
//! Arithmetic is exact: numbers are arbitrary-precision rationals, so
//! repeated arithmetic never loses precision or overflows.  The rationals
//! themselves come from the `num_rational` crate; this module models a
//! value as the spec datatype [`Val`] and proves the value operations
//! (equality, copying, element-wise addition) against that model.
//!
//! Array addition is defined element-wise over arrays of equal length;
//! adding arrays of different lengths, or an array to a number, is a
//! shape error that the machine reports as incompatible operands.

use vstd::prelude::*;

verus! {

#[verifier::external_type_specification]
#[verifier::external_body]
pub struct ExBigInt(num_bigint::BigInt);

#[verifier::external_type_specification]
#[verifier::external_body]
#[verifier::reject_recursive_types(T)]
pub struct ExRatio<T>(num_rational::Ratio<T>);

/// The exact sum of two rationals, as `num_rational`'s addition computes it.
pub uninterp spec fn rat_sum(a: num_rational::BigRational, b: num_rational::BigRational) -> num_rational::BigRational;

/// A rational in `num_rational`'s well-formed representation: reduced,
/// with a nonzero denominator.  Every constructor of the crate except
/// `Ratio::new_raw` yields such a value, and the crate's arithmetic and
/// comparisons panic on any other; the operations here therefore require
/// it of their inputs and promise it of their results.
pub uninterp spec fn rat_wf(r: num_rational::BigRational) -> bool;

/// Relies on `num_rational`'s `Add` impl: on well-formed rationals it
/// returns their exact sum, again well formed (the sum is assembled over
/// the lcm and reduced by `Ratio::new`), a function of the two arguments
/// alone.  On a zero-denominator value the crate's addition panics, so
/// such inputs are required away.
#[verifier::external_body]
fn rat_add(a: &num_rational::BigRational, b: &num_rational::BigRational) -> (r: num_rational::BigRational)
    requires
        rat_wf(*a),
        rat_wf(*b),
    ensures
        r == rat_sum(*a, *b),
        rat_wf(r),
{
    a + b
}

/// Relies on `num_rational`'s `PartialEq` impl: `eq` compares by `cmp`,
/// which decides equality of the rational values, and on well-formed
/// (reduced) representations that coincides with equality of the
/// representations handled here.  On a zero-denominator value `cmp`
/// panics, so such inputs are required away.
#[verifier::external_body]
fn rat_eq(a: &num_rational::BigRational, b: &num_rational::BigRational) -> (r: bool)
    requires
        rat_wf(*a),
        rat_wf(*b),
    ensures
        r == (a == b),
{
    a == b
}

/// Relies on `num_rational`'s derived `Clone` impl: the copy is the same
/// rational value as the original.
#[verifier::external_body]
pub(crate) fn rat_clone(a: &num_rational::BigRational) -> (r: num_rational::BigRational)
    ensures
        r == *a,
{
    a.clone()
}

/// The mathematical model of a runtime value.
#[verifier::ext_equal]
pub enum Val {
    Frac(num_rational::BigRational),
    Arr(Seq<num_rational::BigRational>),
}

/// A runtime value: an exact rational number or an array of them.
pub enum Value {
    Fraction(num_rational::BigRational),
    Array(Vec<num_rational::BigRational>),
}

impl View for Value {
    type V = Val;

    open spec fn view(&self) -> Val {
        match self {
            Value::Fraction(r) => Val::Frac(*r),
            Value::Array(items) => Val::Arr(items@),
        }
    }
}

/// The models of a sequence of values.
pub open spec fn val_views(s: Seq<Value>) -> Seq<Val> {
    Seq::new(s.len(), |i: int| s[i]@)
}

/// A well-formed value: every rational it holds is well formed.
pub open spec fn val_wf(v: Val) -> bool {
    &&& (v is Frac ==> rat_wf(v->Frac_0))
    &&& (v is Arr ==> forall|i: int| 0 <= i < v->Arr_0.len() ==> #[trigger] rat_wf(v->Arr_0[i]))
}

/// Every value of the sequence is well formed.
pub open spec fn vals_wf(s: Seq<Val>) -> bool {
    forall|k: int| 0 <= k < s.len() ==> #[trigger] val_wf(s[k])
}

/// An element of a well-formed value sequence is well formed.
pub proof fn lemma_vals_wf_elem(s: Seq<Val>, k: int)
    requires
        vals_wf(s),
        0 <= k < s.len(),
    ensures
        val_wf(s[k]),
{
}

/// Pushing a well-formed value keeps a value sequence well formed.
pub proof fn lemma_vals_wf_push(s: Seq<Val>, v: Val)
    requires
        vals_wf(s),
        val_wf(v),
    ensures
        vals_wf(s.push(v)),
{
    assert forall|k: int| 0 <= k < s.push(v).len() implies #[trigger] val_wf(s.push(v)[k]) by {
        if k < s.len() {
            assert(s.push(v)[k] == s[k]);
        } else {
            assert(s.push(v)[k] == v);
        }
    }
}

/// Dropping the last value keeps a value sequence well formed.
pub proof fn lemma_vals_wf_drop_last(s: Seq<Val>)
    requires
        vals_wf(s),
        s.len() > 0,
    ensures
        vals_wf(s.drop_last()),
{
    assert forall|k: int| 0 <= k < s.drop_last().len() implies #[trigger] val_wf(
        s.drop_last()[k],
    ) by {
        assert(s.drop_last()[k] == s[k]);
    }
}

/// Overwriting one entry with a well-formed value keeps a value
/// sequence well formed.
pub proof fn lemma_vals_wf_update(s: Seq<Val>, i: int, v: Val)
    requires
        vals_wf(s),
        val_wf(v),
        0 <= i < s.len(),
    ensures
        vals_wf(s.update(i, v)),
{
    assert forall|k: int| 0 <= k < s.update(i, v).len() implies #[trigger] val_wf(
        s.update(i, v)[k],
    ) by {
        if k != i {
            assert(s.update(i, v)[k] == s[k]);
        } else {
            assert(s.update(i, v)[k] == v);
        }
    }
}

/// Each element of a well-formed array value is well formed.
proof fn lemma_val_wf_elem(s: Seq<num_rational::BigRational>, i: int)
    requires
        val_wf(Val::Arr(s)),
        0 <= i < s.len(),
    ensures
        rat_wf(s[i]),
{
    assert(Val::Arr(s)->Arr_0 == s);
}

/// Two values can be added exactly when both are rationals, or both are
/// arrays of the same length.
pub open spec fn addable(a: Val, b: Val) -> bool {
    match (a, b) {
        (Val::Frac(_), Val::Frac(_)) => true,
        (Val::Arr(xs), Val::Arr(ys)) => xs.len() == ys.len(),
        _ => false,
    }
}

/// The sum of two addable values: the exact rational sum of two numbers,
/// element-wise over arrays of equal length.
pub open spec fn val_sum(a: Val, b: Val) -> Val
    recommends
        addable(a, b),
{
    match (a, b) {
        (Val::Frac(x), Val::Frac(y)) => Val::Frac(rat_sum(x, y)),
        (Val::Arr(xs), Val::Arr(ys)) => Val::Arr(Seq::new(xs.len(), |i: int| rat_sum(xs[i], ys[i]))),
        _ => a,
    }
}

/// Structural equality of two values: used by the constant pool to keep
/// literals deduplicated.
pub fn value_eq(a: &Value, b: &Value) -> (r: bool)
    requires
        val_wf(a@),
        val_wf(b@),
    ensures
        r == (a@ == b@),
{
    match (a, b) {
        (Value::Fraction(x), Value::Fraction(y)) => rat_eq(x, y),
        (Value::Array(xs), Value::Array(ys)) => {
            if xs.len() != ys.len() {
                return false;
            }
            let n = xs.len();
            let mut i: usize = 0;
            while i < n
                invariant
                    n == xs@.len() == ys@.len(),
                    0 <= i <= n,
                    forall|k: int| 0 <= k < i ==> xs@[k] == ys@[k],
                    a@ == Val::Arr(xs@),
                    b@ == Val::Arr(ys@),
                    val_wf(a@),
                    val_wf(b@),
                decreases n - i,
            {
                proof {
                    lemma_val_wf_elem(xs@, i as int);
                    lemma_val_wf_elem(ys@, i as int);
                }
                if !rat_eq(&xs[i], &ys[i]) {
                    return false;
                }
                i += 1;
            }
            proof {
                assert(xs@ =~= ys@);
            }
            true
        },
        _ => false,
    }
}

/// A deep copy of a value, equal to the original under the model.
pub fn value_clone(v: &Value) -> (r: Value)
    ensures
        r@ == v@,
{
    match v {
        Value::Fraction(x) => Value::Fraction(rat_clone(x)),
        Value::Array(items) => {
            let n = items.len();
            let mut out: Vec<num_rational::BigRational> = Vec::new();
            let mut i: usize = 0;
            while i < n
                invariant
                    n == items@.len(),
                    0 <= i <= n,
                    out@.len() == i,
                    forall|k: int| 0 <= k < i ==> out@[k] == items@[k],
                decreases n - i,
            {
                let c = rat_clone(&items[i]);
                out.push(c);
                i += 1;
            }
            proof {
                assert(out@ =~= items@);
            }
            Value::Array(out)
        },
    }
}

/// The exact sum of two values, or `None` when their shapes are
/// incompatible: only rationals add to rationals, and arrays add
/// element-wise to arrays of the same length.
pub fn value_add(a: &Value, b: &Value) -> (r: Option<Value>)
    requires
        val_wf(a@),
        val_wf(b@),
    ensures
        match r {
            Some(v) => addable(a@, b@) && v@ == val_sum(a@, b@) && val_wf(v@),
            None => !addable(a@, b@),
        },
{
    match (a, b) {
        (Value::Fraction(x), Value::Fraction(y)) => Some(Value::Fraction(rat_add(x, y))),
        (Value::Array(xs), Value::Array(ys)) => {
            if xs.len() != ys.len() {
                return None;
            }
            let n = xs.len();
            let mut out: Vec<num_rational::BigRational> = Vec::new();
            let mut i: usize = 0;
            while i < n
                invariant
                    n == xs@.len() == ys@.len(),
                    0 <= i <= n,
                    out@.len() == i,
                    forall|k: int| 0 <= k < i ==> out@[k] == rat_sum(xs@[k], ys@[k]),
                    forall|k: int| 0 <= k < i ==> rat_wf(#[trigger] out@[k]),
                    a@ == Val::Arr(xs@),
                    b@ == Val::Arr(ys@),
                    val_wf(a@),
                    val_wf(b@),
                decreases n - i,
            {
                proof {
                    lemma_val_wf_elem(xs@, i as int);
                    lemma_val_wf_elem(ys@, i as int);
                }
                let c = rat_add(&xs[i], &ys[i]);
                out.push(c);
                i += 1;
            }
            proof {
                assert(out@ =~= val_sum(a@, b@)->Arr_0);
            }
            Some(Value::Array(out))
        },
        _ => None,
    }
}

} // verus!

//! Laws that relate the conversions of scalar values to one another.

use crate::binary64::{
    exactly_representable, float_equal, lemma_round_truncate_round, lemma_truncate_round, round_spec,
    truncate_spec,
};
use crate::scalar::ShyScalar;
use vstd::prelude::*;
use vstd::std_specs::convert::FromSpec;

verus! {

/// Converting an integer to a binary64 number and back to an integer loses
/// nothing: the way back is found lossless and yields the integer again, for every integer that the
/// format holds exactly (and for `i64::MAX`, which saturates back to
/// itself).
pub proof fn lemma_integer_through_rational(i: i64)
    requires
        exactly_representable(i as int) || i == i64::MAX,
    ensures
        ShyScalar::Integer(i).rational_spec() == Ok::<u64, &'static str>(round_spec(i as int)),
        ShyScalar::Rational(round_spec(i as int)).integer_spec() == Ok::<i64, &'static str>(i),
{
    lemma_truncate_round(i);
}

/// For every integer, converting it to a binary64 number and back to an
/// integer is found lossless, and the integer obtained converts to the very
/// same binary64 number.
pub proof fn lemma_integer_through_rational_lossless(i: i64)
    ensures
        ShyScalar::Integer(i).rational_spec() == Ok::<u64, &'static str>(round_spec(i as int)),
        ShyScalar::Rational(round_spec(i as int)).integer_spec() == Ok::<i64, &'static str>(
            truncate_spec(round_spec(i as int)),
        ),
        round_spec(truncate_spec(round_spec(i as int)) as int) == round_spec(i as int),
{
    lemma_round_truncate_round(i);
}

/// A value built from a native boolean, integer, binary64 number or string
/// converts back to that same type and gives the value it was built from.
pub proof fn lemma_native_round_trips(b: bool, i: i64, j: i32, x: u64, s: String)
    ensures
        <ShyScalar as FromSpec<bool>>::from_spec(b).boolean_spec() == Ok::<bool, &'static str>(b),
        <ShyScalar as FromSpec<i64>>::from_spec(i).integer_spec() == Ok::<i64, &'static str>(i),
        <ShyScalar as FromSpec<i32>>::from_spec(j).integer_spec() == Ok::<i64, &'static str>(
            j as i64,
        ),
        ShyScalar::Rational(x).rational_spec() == Ok::<u64, &'static str>(x),
        <ShyScalar as FromSpec<String>>::from_spec(s).text_spec() == Ok::<Seq<char>, &'static str>(
            s@,
        ),
{
}

/// Values built from equal native values of one kind are equal; values of
/// different kinds never are, whatever their payloads.
pub proof fn lemma_equal_natives_equal(a: ShyScalar, b: ShyScalar)
    ensures
        a matches ShyScalar::Boolean(p) && b matches ShyScalar::Boolean(q) && p == q ==> a.equals(&b),
        a matches ShyScalar::Integer(p) && b matches ShyScalar::Integer(q) && p == q ==> a.equals(&b),
        a matches ShyScalar::Rational(p) && b matches ShyScalar::Rational(q) && float_equal(p, q)
            ==> a.equals(&b),
        a matches ShyScalar::String(p) && b matches ShyScalar::String(q) && p@ == q@ ==> a.equals(
            &b,
        ),
        a.equals(&b) ==> a.same_kind(&b),
{
}

/// A value built from a text slice is text holding that slice's characters:
/// it converts back to them, and it is never equal to a value of another
/// kind, such as the integer built from the same digits.
pub proof fn lemma_text_slice_construction(p: &str, r: ShyScalar, other: ShyScalar)
    requires
        call_ensures(<ShyScalar as From<&str>>::from, (p,), r),
    ensures
        r is String,
        r.text_spec() == Ok::<Seq<char>, &'static str>(p@),
        !(other is String) ==> !r.equals(&other) && !other.equals(&r),
        other matches ShyScalar::String(q) && q@ == p@ ==> r.equals(&other),
{
}

} // verus!

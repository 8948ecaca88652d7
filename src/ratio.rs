use vstd::prelude::*;

verus! {

/// Integer quotient that is zero whenever either operand is zero.
pub open spec fn safe_quotient(a: nat, b: nat) -> nat {
    if b == 0 {
        0
    } else {
        a / b
    }
}

/// Divides `a` by `b`, giving zero when either is zero instead of faulting.
pub fn safe_divide(a: usize, b: usize) -> (r: usize)
    ensures
        r as nat == safe_quotient(a as nat, b as nat),
{
    if a == 0 || b == 0 {
        return 0;
    }
    a / b
}

/// The ratio `written / length` in hundredths of a percent, rounded to the
/// nearest (halves up); zero for an empty content.
pub open spec fn ratio_hundredths(written: nat, length: nat) -> nat {
    if length == 0 {
        0
    } else {
        (written * 20000 + length) / (2 * length)
    }
}

/// The ratio of `written` to `length` as a percentage, split into its whole part
/// and its hundredths (`(100, 0)` reads 100.00%), rounded to the nearest
/// hundredth. An empty content gives zero.
pub fn ratio_percent(written: usize, length: usize) -> (r: (u128, u8))
    ensures
        r.0 * 100 + r.1 == ratio_hundredths(written as nat, length as nat),
        r.1 < 100,
{
    if length == 0 {
        return (0, 0);
    }
    assert((written as u128) * 20000 + length as u128 <= u64::MAX as u128 * 20001)
        by (nonlinear_arith)
        requires
            written <= u64::MAX,
            length <= u64::MAX,
    ;
    let h: u128 = ((written as u128) * 20000 + length as u128) / (2 * (length as u128));
    (h / 100, (h % 100) as u8)
}

} // verus!

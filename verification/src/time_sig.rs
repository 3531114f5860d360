use vstd::prelude::*;

verus! {

/// The decimal digits of `n`, most significant first, without leading zeros;
/// zero has no digits.
pub open spec fn decimal_digits(n: nat) -> Seq<u8>
    decreases n,
{
    if n == 0 {
        Seq::empty()
    } else {
        decimal_digits(n / 10).push((n % 10) as u8)
    }
}

/// The number that a sequence of decimal digits, most significant first, writes.
pub open spec fn digits_value(s: Seq<u8>) -> nat
    decreases s.len(),
{
    if s.len() == 0 {
        0
    } else {
        digits_value(s.drop_last()) * 10 + s.last() as nat
    }
}

/// The digits, left to right, that a time signature shows for `number`.
/// Zero shows no digit at all.
pub fn time_sig_digits(number: u8) -> (digits: Vec<u8>)
    ensures
        digits@ == decimal_digits(number as nat),
{
    let mut digits: Vec<u8> = Vec::with_capacity(3);
    let mut rest: u8 = number;
    while rest > 0
        invariant
            decimal_digits(number as nat) == decimal_digits(rest as nat) + digits@,
        decreases rest,
    {
        let ghost before = digits@;
        let d: u8 = rest % 10;
        digits.insert(0, d);
        assert(decimal_digits(rest as nat) == decimal_digits((rest / 10) as nat).push(d));
        assert(decimal_digits((rest / 10) as nat).push(d) + before =~= decimal_digits(
            (rest / 10) as nat,
        ) + digits@);
        rest = rest / 10;
    }
    assert(decimal_digits(0) + digits@ =~= digits@);
    digits
}

/// The digits of a number write that number back, each is below ten, and the
/// first is never zero.
pub proof fn lemma_decimal_digits_round_trip(n: nat)
    ensures
        digits_value(decimal_digits(n)) == n,
        forall|i: int|
            0 <= i < decimal_digits(n).len() ==> #[trigger] decimal_digits(n)[i] < 10,
        decimal_digits(n).len() > 0 ==> decimal_digits(n)[0] != 0,
        (decimal_digits(n).len() == 0) == (n == 0),
    decreases n,
{
    if n > 0 {
        lemma_decimal_digits_round_trip(n / 10);
        let s = decimal_digits(n);
        assert(s.drop_last() =~= decimal_digits(n / 10));
        assert forall|i: int| 0 <= i < s.len() implies #[trigger] s[i] < 10 by {
            if i < s.len() - 1 {
                assert(s[i] == decimal_digits(n / 10)[i]);
            }
        }
        if n / 10 == 0 {
            assert(s[0] == (n % 10) as u8);
        } else {
            assert(s[0] == decimal_digits(n / 10)[0]);
        }
    }
}

/// A time-signature number has at most three digits.
pub proof fn lemma_time_sig_digits_at_most_three(number: u8)
    ensures
        decimal_digits(number as nat).len() <= 3,
{
    let n = number as nat;
    assert(n / 10 / 10 / 10 == 0);
    assert(decimal_digits(n / 10 / 10 / 10).len() == 0);
    assert(decimal_digits(n / 10 / 10).len() <= 1);
    assert(decimal_digits(n / 10).len() <= 2);
}

/// The digits of a time-signature number, written out: hundreds, tens and
/// units, dropping the leading zeros; zero has none.
pub proof fn lemma_time_sig_digits_written_out(number: u8)
    ensures
        number == 0 ==> decimal_digits(number as nat) == Seq::<u8>::empty(),
        1 <= number < 10 ==> decimal_digits(number as nat) == seq![number],
        10 <= number < 100 ==> decimal_digits(number as nat) == seq![
            (number / 10) as u8,
            (number % 10) as u8,
        ],
        100 <= number ==> decimal_digits(number as nat) == seq![
            (number / 100) as u8,
            (number / 10 % 10) as u8,
            (number % 10) as u8,
        ],
{
    let n = number as nat;
    assert(decimal_digits(0) == Seq::<u8>::empty());
    if 1 <= n < 10 {
        assert(n / 10 == 0);
        assert(decimal_digits(n) =~= seq![number]);
    } else if 10 <= n < 100 {
        assert(n / 10 / 10 == 0);
        assert(decimal_digits(n / 10) =~= seq![(n / 10) as u8]);
        assert(decimal_digits(n) =~= seq![(number / 10) as u8, (number % 10) as u8]);
    } else if 100 <= n {
        assert(n / 10 / 10 / 10 == 0);
        assert(decimal_digits(n / 10 / 10) =~= seq![(n / 100) as u8]);
        assert(decimal_digits(n / 10) =~= seq![(n / 100) as u8, (n / 10 % 10) as u8]);
        assert(decimal_digits(n) =~= seq![
            (number / 100) as u8,
            (number / 10 % 10) as u8,
            (number % 10) as u8,
        ]);
    }
}

} // verus!

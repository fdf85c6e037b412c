use vstd::prelude::*;

verus! {

/// The ASCII digit for `d`, which is below ten.
pub open spec fn digit(d: nat) -> u8 {
    (48 + d) as u8
}

/// Decimal rendering of `n`, most significant digit first; zero is "0".
pub open spec fn decimal(n: nat) -> Seq<u8>
    decreases n,
{
    if n < 10 {
        seq![digit(n)]
    } else {
        decimal(n / 10).push(digit(n % 10))
    }
}

/// Ten to the power `k`.
pub open spec fn pow10(k: nat) -> nat
    decreases k,
{
    if k == 0 {
        1
    } else {
        10 * pow10((k - 1) as nat)
    }
}

/// Every byte of a rendering is an ASCII digit, and the first one is
/// '0' only when the number itself is zero: no leading zeros.
pub proof fn lemma_decimal_digits(n: nat)
    ensures
        decimal(n).len() >= 1,
        forall|i: int| 0 <= i < decimal(n).len() ==> 48 <= #[trigger] decimal(n)[i] <= 57,
        (decimal(n)[0] == 48) <==> (n == 0),
    decreases n,
{
    if n >= 10 {
        lemma_decimal_digits(n / 10);
    }
}

/// Renders `n` in decimal, filling a ten-byte buffer from its end and
/// handing back only the used suffix.
pub fn udecimal(n: u32) -> (r: Vec<u8>)
    ensures
        r@ == decimal(n as nat),
        1 <= r@.len() <= 10,
        n != 0 ==> r@[0] != 48,
{
    proof {
        lemma_decimal_digits(n as nat);
    }
    if n == 0 {
        return vec![48u8];
    }
    let mut buf = [0u8; 10];
    let mut i: usize = 10;
    let mut m: u32 = n;
    proof {
        reveal_with_fuel(pow10, 11);
        assert(pow10(10) == 10000000000);
    }
    while m > 0
        invariant
            0 <= i <= 10,
            (m as nat) < pow10(i as nat),
            m > 0 ==> decimal(n as nat) == decimal(m as nat) + buf@.subrange(i as int, 10),
            m == 0 ==> decimal(n as nat) == buf@.subrange(i as int, 10),
        decreases m,
    {
        assert(i > 0);
        let d = (m % 10) as u8;
        let ghost old_buf = buf@;
        buf[i - 1] = 48 + d;
        let ghost mm = m as nat;
        assert(buf@.subrange(i - 1, 10) =~= seq![digit(mm % 10)] + old_buf.subrange(i as int, 10));
        m = m / 10;
        assert((m as nat) < pow10((i - 1) as nat)) by (nonlinear_arith)
            requires
                m as nat == mm / 10,
                mm < pow10(i as nat),
                pow10(i as nat) == 10 * pow10((i - 1) as nat),
        ;
        if m > 0 {
            assert(decimal(mm) == decimal(m as nat).push(digit(mm % 10)));
            assert(decimal(n as nat) =~= decimal(m as nat) + buf@.subrange(i - 1, 10));
        } else {
            assert(decimal(mm) == seq![digit(mm % 10)]);
            assert(decimal(n as nat) =~= buf@.subrange(i - 1, 10));
        }
        i = i - 1;
    }
    let mut out: Vec<u8> = Vec::new();
    let mut j: usize = i;
    while j < 10
        invariant
            i <= j <= 10,
            out@ == buf@.subrange(i as int, j as int),
        decreases 10 - j,
    {
        out.push(buf[j]);
        assert(out@ =~= buf@.subrange(i as int, j + 1));
        j = j + 1;
    }
    out
}

} // verus!

use vstd::prelude::*;

verus! {

/// The ASCII digit for `d`, where `0 <= d < 10`.
pub open spec fn digit_byte(d: int) -> u8 {
    (48 + d) as u8
}

/// The decimal digits of `n`, most significant first, without leading zeros.
pub open spec fn digits(n: nat) -> Seq<u8>
    decreases n,
{
    if n < 10 {
        seq![digit_byte(n as int)]
    } else {
        digits(n / 10).push(digit_byte((n % 10) as int))
    }
}

/// The digits after the decimal point of a fraction of `f` thousandths
/// (`0 < f < 1000`), trailing zeros left out.
pub open spec fn fraction_digits(f: nat) -> Seq<u8> {
    if f % 100 == 0 {
        seq![digit_byte((f / 100) as int)]
    } else if f % 10 == 0 {
        seq![digit_byte((f / 100) as int), digit_byte(((f / 10) % 10) as int)]
    } else {
        seq![
            digit_byte((f / 100) as int),
            digit_byte(((f / 10) % 10) as int),
            digit_byte((f % 10) as int),
        ]
    }
}

/// The shortest decimal text of `n` thousandths, for `n >= 0`.
pub open spec fn magnitude_text(n: nat) -> Seq<u8> {
    if n % 1000 == 0 {
        digits(n / 1000)
    } else {
        digits(n / 1000) + seq![46u8] + fraction_digits(n % 1000)
    }
}

/// The shortest decimal text of `v` thousandths: `5000` reads `5`, `-2500`
/// reads `-2.5`, `1` reads `0.001`.
pub open spec fn decimal_text(v: int) -> Seq<u8> {
    if v < 0 {
        seq![45u8] + magnitude_text((-v) as nat)
    } else {
        magnitude_text(v as nat)
    }
}

fn push_digits(out: &mut Vec<u8>, n: u64)
    ensures
        final(out)@ == old(out)@ + digits(n as nat),
    decreases n,
{
    if n >= 10 {
        push_digits(out, n / 10);
    }
    out.push(48u8 + (n % 10) as u8);
    proof {
        if n >= 10 {
            assert(old(out)@ + digits(n as nat) =~= old(out)@ + digits((n / 10) as nat) + seq![
                digit_byte((n % 10) as int),
            ]);
        }
    }
}

/// Appends the shortest decimal text of `v` thousandths to `out`.
pub fn push_decimal(out: &mut Vec<u8>, v: i64)
    ensures
        final(out)@ == old(out)@ + decimal_text(v as int),
{
    let n: u64 = if v < 0 {
        out.push(45u8);
        ((-(v as i128)) as u64)
    } else {
        v as u64
    };
    let start = Ghost(out@);
    push_digits(out, n / 1000);
    let f: u64 = n % 1000;
    if f != 0 {
        out.push(46u8);
        out.push(48u8 + (f / 100) as u8);
        if f % 100 != 0 {
            out.push(48u8 + ((f / 10) % 10) as u8);
            if f % 10 != 0 {
                out.push(48u8 + (f % 10) as u8);
            }
        }
    }
    proof {
        assert(out@ =~= start@ + magnitude_text(n as nat));
        if v < 0 {
            assert(old(out)@ + decimal_text(v as int) =~= old(out)@ + seq![45u8]
                + magnitude_text(n as nat));
        }
    }
}

} // verus!

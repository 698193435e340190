//! Decimal rendering of indices, zero padding, and the padding width of a run.
use vstd::prelude::*;

verus! {

/// The character of a decimal digit.
pub open spec fn digit_char(d: nat) -> char {
    ((d + 48) as u8) as char
}

/// The decimal digits of `n`, most significant first, without leading zeros.
pub open spec fn decimal(n: nat) -> Seq<char>
    decreases n,
{
    if n < 10 {
        seq![digit_char(n)]
    } else {
        decimal(n / 10).push(digit_char(n % 10))
    }
}

/// The number of decimal digits of `n` (one for zero).
pub open spec fn num_digits(n: nat) -> nat
    decreases n,
{
    if n < 10 {
        1
    } else {
        1 + num_digits(n / 10)
    }
}

/// Ten to the power `e`.
pub open spec fn pow10(e: nat) -> nat
    decreases e,
{
    if e == 0 {
        1
    } else {
        10 * pow10((e - 1) as nat)
    }
}

/// `n` left-padded with `'0'` to `width` characters; never truncated.
pub open spec fn zero_padded(n: nat, width: nat) -> Seq<char> {
    let d = decimal(n);
    if width > d.len() {
        Seq::new((width - d.len()) as nat, |_i: int| '0') + d
    } else {
        d
    }
}

/// The padding width for a run whose size hint is `(lower, upper)`: the digit count of the
/// upper bound if there is one, else of the lower bound.
pub open spec fn hint_width(lower: nat, upper: Option<usize>) -> nat {
    match upper {
        Some(u) => num_digits(u as nat),
        None => num_digits(lower),
    }
}

pub proof fn lemma_decimal_len(n: nat)
    ensures
        decimal(n).len() == num_digits(n),
        num_digits(n) >= 1,
    decreases n,
{
    if n >= 10 {
        lemma_decimal_len(n / 10);
    }
}

/// The digit count of a positive `n` is `floor(log10(n)) + 1`: `10^(w-1) <= n < 10^w`.
pub proof fn lemma_num_digits_log10(n: nat)
    requires
        n > 0,
    ensures
        pow10((num_digits(n) - 1) as nat) <= n < pow10(num_digits(n)),
    decreases n,
{
    lemma_decimal_len(n);
    if n >= 10 {
        lemma_num_digits_log10(n / 10);
        lemma_decimal_len(n / 10);
        let w = num_digits(n / 10);
        assert(pow10(w) == 10 * pow10((w - 1) as nat));
        assert(pow10((w + 1) as nat) == 10 * pow10(w));
    }
}

/// Appends `c` to `s`.
/// Relies on `String::push`: the character is added at the end.
#[verifier::external_body]
pub(crate) fn push_char(s: &mut String, c: char)
    ensures
        final(s)@ == old(s)@.push(c),
{
    s.push(c)
}

/// A positive number has at most as many digits as its value.
proof fn lemma_num_digits_le(n: nat)
    requires
        n >= 1,
    ensures
        num_digits(n) <= n,
    decreases n,
{
    if n >= 10 {
        lemma_num_digits_le(n / 10);
    }
}

/// Zero padding never truncates: the padded form is `width` long, or just the digits when
/// they are longer, and it ends with all the digits of `n`, after nothing but zeros.
pub proof fn lemma_zero_padded_keeps_digits(n: nat, width: nat)
    ensures
        zero_padded(n, width).len() == if width > num_digits(n) {
            width
        } else {
            num_digits(n)
        },
        zero_padded(n, width).subrange(
            zero_padded(n, width).len() - num_digits(n),
            zero_padded(n, width).len() as int,
        ) == decimal(n),
        forall|i: int|
            0 <= i < zero_padded(n, width).len() - num_digits(n) ==> zero_padded(n, width)[i]
                == '0',
{
    lemma_decimal_len(n);
    let p = zero_padded(n, width);
    let d = decimal(n);
    assert(p.subrange(p.len() - d.len(), p.len() as int) =~= d);
}

/// The number of decimal digits of `n`.
pub fn count_digits(n: usize) -> (r: usize)
    ensures
        r == num_digits(n as nat),
{
    let mut m: usize = n;
    let mut k: usize = 1;
    while m >= 10
        invariant
            k >= 1,
            m <= n,
            num_digits(n as nat) == k - 1 + num_digits(m as nat),
        decreases m,
    {
        proof {
            lemma_num_digits_le(n as nat);
            lemma_decimal_len((m / 10) as nat);
        }
        m = m / 10;
        k = k + 1;
    }
    k
}

/// The padding width of a run from the size hint of its sequence: the digit count of the
/// upper bound if one is given, else of the lower bound; `1` for an empty hint.
pub fn max_size_hint_digits(hint: (usize, Option<usize>)) -> (r: usize)
    ensures
        r == hint_width(hint.0 as nat, hint.1),
        r >= 1,
        ({
            let n = match hint.1 {
                Some(u) => u as nat,
                None => hint.0 as nat,
            };
            n > 0 ==> pow10((r - 1) as nat) <= n < pow10(r as nat)
        }),
{
    let (min, max) = hint;
    let n = match max {
        Some(m) => m,
        None => min,
    };
    proof {
        lemma_decimal_len(n as nat);
        if n > 0 {
            lemma_num_digits_log10(n as nat);
        }
    }
    count_digits(n)
}

/// Appends `n`, zero-padded to `width` characters, to `out`.
pub fn push_padded(out: &mut String, n: usize, width: usize)
    ensures
        final(out)@ == old(out)@ + zero_padded(n as nat, width as nat),
{
    let mut digits: Vec<char> = Vec::new();
    let mut m: usize = n;
    loop
        invariant_except_break
            decimal(n as nat) == decimal(m as nat) + digits@.reverse(),
        ensures
            decimal(n as nat) == digits@.reverse(),
        decreases m,
    {
        let d: usize = m % 10;
        let c: char = ((d as u8) + 48u8) as char;
        assert(c == digit_char((m % 10) as nat));
        let ghost old_digits = digits@;
        digits.push(c);
        assert(digits@.reverse() =~= seq![c] + old_digits.reverse());
        if m < 10 {
            assert(decimal(m as nat) =~= seq![c]);
            assert(decimal(n as nat) =~= digits@.reverse());
            break;
        }
        assert(decimal(m as nat) == decimal((m / 10) as nat).push(c));
        assert(decimal((m / 10) as nat).push(c) + old_digits.reverse() =~= decimal((m / 10) as nat)
            + digits@.reverse());
        m = m / 10;
    }
    let ghost start = out@;
    let len: usize = digits.len();
    let mut pad: usize = width;
    while pad > len
        invariant
            pad <= width,
            width > len ==> pad >= len,
            width <= len ==> pad == width,
            out@ =~= start + Seq::new((width - pad) as nat, |_i: int| '0'),
        decreases pad,
    {
        push_char(out, '0');
        pad = pad - 1;
        assert(out@ =~= start + Seq::new((width - pad) as nat, |_i: int| '0'));
    }
    let ghost padded = out@;
    let mut i: usize = len;
    while i > 0
        invariant
            i <= len == digits@.len(),
            out@ =~= padded + digits@.reverse().subrange(0, len - i),
        decreases i,
    {
        i = i - 1;
        push_char(out, digits[i]);
        assert(out@ =~= padded + digits@.reverse().subrange(0, len - i));
    }
    assert(digits@.reverse().subrange(0, len as int) =~= digits@.reverse());
    assert(decimal(n as nat).len() == len);
    if width > len {
        assert(pad == len);
    } else {
        assert(pad == width);
    }
    assert(out@ =~= old(out)@ + zero_padded(n as nat, width as nat));
}

} // verus!

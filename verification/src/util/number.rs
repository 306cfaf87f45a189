use vstd::prelude::*;

verus! {

/// The character that stands for the digit `d`.
pub open spec fn digit_char(d: nat) -> char {
    if d == 0 {
        '0'
    } else if d == 1 {
        '1'
    } else if d == 2 {
        '2'
    } else if d == 3 {
        '3'
    } else if d == 4 {
        '4'
    } else if d == 5 {
        '5'
    } else if d == 6 {
        '6'
    } else if d == 7 {
        '7'
    } else if d == 8 {
        '8'
    } else {
        '9'
    }
}

/// The digit that the character `c` stands for.
pub open spec fn digit_value(c: char) -> nat {
    if c == '0' {
        0
    } else if c == '1' {
        1
    } else if c == '2' {
        2
    } else if c == '3' {
        3
    } else if c == '4' {
        4
    } else if c == '5' {
        5
    } else if c == '6' {
        6
    } else if c == '7' {
        7
    } else if c == '8' {
        8
    } else {
        9
    }
}

/// Whether every character of `s` is a decimal digit.
pub open spec fn all_digits(s: Seq<char>) -> bool {
    forall|i: int| 0 <= i < s.len() ==> '0' <= #[trigger] s[i] <= '9'
}

/// The number that the digits `s` write in base ten.
pub open spec fn number_of(s: Seq<char>) -> nat
    decreases s.len(),
{
    if s.len() == 0 {
        0
    } else {
        number_of(s.drop_last()) * 10 + digit_value(s.last())
    }
}

/// The number `n` written in base ten, without leading zeros.
pub open spec fn decimal(n: nat) -> Seq<char>
    decreases n,
{
    if n < 10 {
        seq![digit_char(n)]
    } else {
        decimal(n / 10).push(digit_char(n % 10))
    }
}

/// A number written in base ten is made of digits, at least one, and
/// reads back as itself.
pub proof fn lemma_decimal(n: nat)
    ensures
        decimal(n).len() > 0,
        all_digits(decimal(n)),
        number_of(decimal(n)) == n,
    decreases n,
{
    if n < 10 {
        let s = seq![digit_char(n)];
        assert(s.drop_last() =~= Seq::<char>::empty());
        assert(s.last() == digit_char(n));
        assert(number_of(s.drop_last()) == 0);
    } else {
        lemma_decimal(n / 10);
        let s = decimal(n / 10).push(digit_char(n % 10));
        assert(s.drop_last() =~= decimal(n / 10));
        assert(s.last() == digit_char(n % 10));
    }
}

/// Reads a number written in base ten; `None` if the text is empty, holds
/// anything but digits, or writes a number above `u32::MAX`.
pub fn parse_u32(v: &Vec<char>, from: usize, to: usize) -> (r: Option<u32>)
    requires
        from <= to <= v.len(),
    ensures
        match r {
            Some(n) => from < to && all_digits(v@.subrange(from as int, to as int)) && n
                == number_of(v@.subrange(from as int, to as int)),
            None => from == to || !all_digits(v@.subrange(from as int, to as int)) || number_of(
                v@.subrange(from as int, to as int),
            ) > u32::MAX,
        },
{
    if from == to {
        return None;
    }
    let ghost s = v@.subrange(from as int, to as int);
    let mut n: u64 = 0;
    let mut i: usize = from;
    assert(s.take(0) =~= Seq::<char>::empty());
    while i < to
        invariant
            from <= i <= to <= v.len(),
            s == v@.subrange(from as int, to as int),
            all_digits(s.take(i - from)),
            n == number_of(s.take(i - from)),
            n <= u32::MAX,
        decreases to - i,
    {
        let c = v[i];
        assert(s[i - from] == c);
        if !('0' <= c && c <= '9') {
            return None;
        }
        let d: u64 = (c as u32 - '0' as u32) as u64;
        assert(d == digit_value(c));
        proof {
            assert(s.take(i - from + 1).drop_last() =~= s.take(i - from));
            assert(s.take(i - from + 1).last() == c);
        }
        n = n * 10 + d;
        if n > 0xffff_ffff {
            proof {
                lemma_number_grows(s, i - from + 1);
            }
            return None;
        }
        i += 1;
    }
    assert(s.take(s.len() as int) =~= s);
    Some(n as u32)
}

/// The number written by a text is at least the number written by any of
/// its beginnings.
pub proof fn lemma_number_grows(s: Seq<char>, k: int)
    requires
        0 <= k <= s.len(),
    ensures
        number_of(s.take(k)) <= number_of(s),
    decreases s.len() - k,
{
    if k < s.len() {
        lemma_number_grows(s, k + 1);
        assert(s.take(k + 1).drop_last() =~= s.take(k));
    } else {
        assert(s.take(k) =~= s);
    }
}

/// Appends the number `n`, written in base ten, to `out`.
pub fn push_decimal(out: &mut Vec<char>, n: u32)
    ensures
        final(out)@ == old(out)@ + decimal(n as nat),
{
    let mut digits: Vec<char> = Vec::new();
    let mut rest: u32 = n;
    // the digits are found from the last to the first
    while rest >= 10
        invariant
            decimal(n as nat) == decimal(rest as nat) + digits@.reverse(),
        decreases rest,
    {
        let d = rest % 10;
        let c = digit_of(d);
        proof {
            assert(digits@.push(c).reverse() =~= seq![c] + digits@.reverse());
            assert(decimal((rest / 10) as nat).push(c) + digits@.reverse() =~= decimal(
                (rest / 10) as nat,
            ) + (seq![c] + digits@.reverse()));
        }
        digits.push(c);
        rest = rest / 10;
    }
    let c = digit_of(rest);
    proof {
        assert(digits@.push(c).reverse() =~= seq![c] + digits@.reverse());
        assert(decimal(n as nat) =~= digits@.push(c).reverse());
    }
    digits.push(c);
    let ghost all = digits@;
    let ghost before = out@;
    let mut i: usize = digits.len();
    assert(all.reverse().take(0) =~= Seq::<char>::empty());
    while i > 0
        invariant
            i <= digits.len(),
            digits@ == all,
            out@ == before + all.reverse().take(all.len() - i),
        decreases i,
    {
        i -= 1;
        proof {
            let r = all.reverse();
            let k = all.len() - i - 1;
            assert(r[k] == all[i as int]);
            assert(r.take(k).push(r[k]) =~= r.take(k + 1));
        }
        out.push(digits[i]);
    }
    assert(all.reverse().take(all.len() as int) =~= all.reverse());
}

/// The character of one decimal digit.
pub fn digit_of(d: u32) -> (c: char)
    requires
        d < 10,
    ensures
        c == digit_char(d as nat),
{
    if d == 0 {
        '0'
    } else if d == 1 {
        '1'
    } else if d == 2 {
        '2'
    } else if d == 3 {
        '3'
    } else if d == 4 {
        '4'
    } else if d == 5 {
        '5'
    } else if d == 6 {
        '6'
    } else if d == 7 {
        '7'
    } else if d == 8 {
        '8'
    } else {
        '9'
    }
}

/// The character of one hexadecimal digit, in upper or lower case.
pub open spec fn hex_char(d: nat, upper: bool) -> char {
    if d < 10 {
        digit_char(d)
    } else if d == 10 {
        if upper {
            'A'
        } else {
            'a'
        }
    } else if d == 11 {
        if upper {
            'B'
        } else {
            'b'
        }
    } else if d == 12 {
        if upper {
            'C'
        } else {
            'c'
        }
    } else if d == 13 {
        if upper {
            'D'
        } else {
            'd'
        }
    } else if d == 14 {
        if upper {
            'E'
        } else {
            'e'
        }
    } else {
        if upper {
            'F'
        } else {
            'f'
        }
    }
}

/// The character of one hexadecimal digit.
pub fn hex_of(d: u8, upper: bool) -> (c: char)
    requires
        d < 16,
    ensures
        c == hex_char(d as nat, upper),
{
    if d < 10 {
        digit_of(d as u32)
    } else if d == 10 {
        if upper {
            'A'
        } else {
            'a'
        }
    } else if d == 11 {
        if upper {
            'B'
        } else {
            'b'
        }
    } else if d == 12 {
        if upper {
            'C'
        } else {
            'c'
        }
    } else if d == 13 {
        if upper {
            'D'
        } else {
            'd'
        }
    } else if d == 14 {
        if upper {
            'E'
        } else {
            'e'
        }
    } else {
        if upper {
            'F'
        } else {
            'f'
        }
    }
}

/// The two hexadecimal digits of a byte.
pub open spec fn hex_byte(b: u8, upper: bool) -> Seq<char> {
    seq![hex_char((b / 16) as nat, upper), hex_char((b % 16) as nat, upper)]
}

/// The bytes `bytes[..n]` written with two hexadecimal digits each.
pub open spec fn hex_bytes(bytes: Seq<u8>, n: int, upper: bool) -> Seq<char>
    decreases n,
{
    if n <= 0 {
        Seq::empty()
    } else {
        hex_bytes(bytes, n - 1, upper) + hex_byte(bytes[n - 1], upper)
    }
}

/// Appends the two hexadecimal digits of `b` to `out`.
pub fn push_hex_byte(out: &mut Vec<char>, b: u8, upper: bool)
    ensures
        final(out)@ == old(out)@ + hex_byte(b, upper),
{
    out.push(hex_of(b / 16, upper));
    out.push(hex_of(b % 16, upper));
    assert(out@ =~= old(out)@ + hex_byte(b, upper));
}

/// The number `n` written in the base `base`, digits above nine in lower
/// case, without leading zeros.
pub open spec fn numeral(n: nat, base: nat) -> Seq<char>
    decreases n,
{
    if base < 2 || n < base {
        seq![hex_char(n, false)]
    } else {
        proof {
            assert(n / base < n) by (nonlinear_arith)
                requires
                    base >= 2,
                    n >= base,
            ;
        }
        numeral(n / base, base).push(hex_char(n % base, false))
    }
}

/// Appends the number `n`, written in the base `base`, to `out`.
pub fn push_numeral(out: &mut Vec<char>, n: u128, base: u32)
    requires
        2 <= base <= 16,
    ensures
        final(out)@ == old(out)@ + numeral(n as nat, base as nat),
{
    let mut digits: Vec<char> = Vec::new();
    let mut rest: u128 = n;
    let base: u128 = base as u128;
    while rest >= base
        invariant
            2 <= base <= 16,
            numeral(n as nat, base as nat) == numeral(rest as nat, base as nat) + digits@.reverse(),
        decreases rest,
    {
        let d = rest % base;
        let c = hex_of(d as u8, false);
        proof {
            assert(digits@.push(c).reverse() =~= seq![c] + digits@.reverse());
            assert(numeral((rest / base) as nat, base as nat).push(c) + digits@.reverse()
                =~= numeral((rest / base) as nat, base as nat) + (seq![c] + digits@.reverse()));
        }
        digits.push(c);
        rest = rest / base;
    }
    let c = hex_of(rest as u8, false);
    proof {
        assert(digits@.push(c).reverse() =~= seq![c] + digits@.reverse());
        assert(numeral(n as nat, base as nat) =~= digits@.push(c).reverse());
    }
    digits.push(c);
    let ghost all = digits@;
    let ghost before = out@;
    let mut i: usize = digits.len();
    assert(all.reverse().take(0) =~= Seq::<char>::empty());
    while i > 0
        invariant
            i <= digits.len(),
            digits@ == all,
            out@ == before + all.reverse().take(all.len() - i),
        decreases i,
    {
        i -= 1;
        proof {
            let r = all.reverse();
            let k = all.len() - i - 1;
            assert(r[k] == all[i as int]);
            assert(r.take(k).push(r[k]) =~= r.take(k + 1));
        }
        out.push(digits[i]);
    }
    assert(all.reverse().take(all.len() as int) =~= all.reverse());
}

/// Hexadecimal digits hold no hyphen.
pub proof fn lemma_hex_bytes_plain(bytes: Seq<u8>, n: int, upper: bool)
    requires
        0 <= n <= bytes.len(),
    ensures
        hex_bytes(bytes, n, upper).len() == 2 * n,
        forall|j: int|
            0 <= j < hex_bytes(bytes, n, upper).len() ==> hex_bytes(bytes, n, upper)[j] != '-',
    decreases n,
{
    if n > 0 {
        lemma_hex_bytes_plain(bytes, n - 1, upper);
    }
}

/// A number written in a base up to sixteen holds no hyphen.
pub proof fn lemma_numeral_plain(n: nat, base: nat)
    requires
        2 <= base <= 16,
    ensures
        numeral(n, base).len() > 0,
        forall|j: int| 0 <= j < numeral(n, base).len() ==> numeral(n, base)[j] != '-',
    decreases n,
{
    if n >= base {
        assert(n / base < n) by (nonlinear_arith)
            requires
                base >= 2,
                n >= base,
        ;
        lemma_numeral_plain(n / base, base);
    }
}

} // verus!

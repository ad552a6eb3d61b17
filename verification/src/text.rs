//! Text rendering of numbers, with the rendered text as the specification.
use vstd::prelude::*;
use vstd::string::StringExecFns;

verus! {

/// The character for a digit below sixteen, in lower case.
pub open spec fn digit_char(d: int) -> char {
    if d == 0 {
        '0'
    } else if d == 1 {
        '1'
    } else if d == 2 {
        '2'
    } else if d == 3 {
        '3'
    } else if d == 4 {
        '4'
    } else if d == 5 {
        '5'
    } else if d == 6 {
        '6'
    } else if d == 7 {
        '7'
    } else if d == 8 {
        '8'
    } else if d == 9 {
        '9'
    } else if d == 10 {
        'a'
    } else if d == 11 {
        'b'
    } else if d == 12 {
        'c'
    } else if d == 13 {
        'd'
    } else if d == 14 {
        'e'
    } else {
        'f'
    }
}

/// The decimal text of a number: no leading zero, `0` for zero.
pub open spec fn decimal(n: nat) -> Seq<char>
    decreases n,
{
    if n < 10 {
        seq![digit_char(n as int)]
    } else {
        decimal(n / 10).push(digit_char((n % 10) as int))
    }
}

/// The last `width` hexadecimal digits of a number, padded with zeros.
pub open spec fn hex_digits(n: nat, width: nat) -> Seq<char>
    decreases width,
{
    if width == 0 {
        Seq::empty()
    } else {
        hex_digits(n / 16, (width - 1) as nat).push(digit_char((n % 16) as int))
    }
}

fn digit_str(d: u64) -> (r: &'static str)
    requires
        d < 16,
    ensures
        r@ == seq![digit_char(d as int)],
{
    proof {
        reveal_strlit("0");
        reveal_strlit("1");
        reveal_strlit("2");
        reveal_strlit("3");
        reveal_strlit("4");
        reveal_strlit("5");
        reveal_strlit("6");
        reveal_strlit("7");
        reveal_strlit("8");
        reveal_strlit("9");
        reveal_strlit("a");
        reveal_strlit("b");
        reveal_strlit("c");
        reveal_strlit("d");
        reveal_strlit("e");
        reveal_strlit("f");
    }
    let r: &'static str = match d {
        0 => "0",
        1 => "1",
        2 => "2",
        3 => "3",
        4 => "4",
        5 => "5",
        6 => "6",
        7 => "7",
        8 => "8",
        9 => "9",
        10 => "a",
        11 => "b",
        12 => "c",
        13 => "d",
        14 => "e",
        _ => "f",
    };
    assert(r@ =~= seq![digit_char(d as int)]);
    r
}

/// Appends the decimal text of `n`.
pub fn push_decimal(out: &mut String, n: u64)
    ensures
        final(out)@ == old(out)@ + decimal(n as nat),
    decreases n,
{
    if n < 10 {
        out.append(digit_str(n));
    } else {
        push_decimal(out, n / 10);
        out.append(digit_str(n % 10));
        assert(out@ =~= old(out)@ + decimal(n as nat));
    }
}

/// Appends the low `width` hexadecimal digits of `n`.
pub fn push_hex(out: &mut String, n: u64, width: u64)
    ensures
        final(out)@ == old(out)@ + hex_digits(n as nat, width as nat),
    decreases width,
{
    if width > 0 {
        push_hex(out, n / 16, width - 1);
        out.append(digit_str(n % 16));
    }
    assert(out@ =~= old(out)@ + hex_digits(n as nat, width as nat));
}

proof fn lemma_digit_char_injective(a: int, b: int)
    requires
        0 <= a < 10,
        0 <= b < 10,
        digit_char(a) == digit_char(b),
    ensures
        a == b,
{
}

/// Different numbers have different decimal texts.
pub proof fn decimal_is_injective(a: nat, b: nat)
    requires
        decimal(a) == decimal(b),
    ensures
        a == b,
    decreases a,
{
    let da = decimal(a);
    let db = decimal(b);
    assert(da.last() == digit_char((a % 10) as int));
    assert(db.last() == digit_char((b % 10) as int));
    lemma_digit_char_injective((a % 10) as int, (b % 10) as int);
    lemma_decimal_nonempty(a / 10);
    lemma_decimal_nonempty(b / 10);
    if a >= 10 && b >= 10 {
        assert(da.drop_last() =~= decimal(a / 10));
        assert(db.drop_last() =~= decimal(b / 10));
        decimal_is_injective(a / 10, b / 10);
    } else if a < 10 && b >= 10 {
        assert(db.len() >= 2);
    } else if a >= 10 && b < 10 {
        assert(da.len() >= 2);
    }
}

pub(crate) proof fn lemma_decimal_digits(n: nat, i: int)
    requires
        0 <= i < decimal(n).len(),
    ensures
        decimal(n)[i] != '_',
    decreases n,
{
    if n >= 10 && i < decimal(n / 10).len() {
        lemma_decimal_digits(n / 10, i);
    }
}

/// Two numbers joined by an underscore can be told from the text.
pub proof fn decimal_pairs_are_injective(a: nat, b: nat, c: nat, d: nat)
    requires
        decimal(a) + seq!['_'] + decimal(b) == decimal(c) + seq!['_'] + decimal(d),
    ensures
        a == c,
        b == d,
{
    let x = decimal(a) + seq!['_'] + decimal(b);
    let y = decimal(c) + seq!['_'] + decimal(d);
    let n = decimal(a).len() as int;
    let m = decimal(c).len() as int;
    assert(x[n] == '_');
    assert(y[m] == '_');
    if n < m {
        assert(y[n] == decimal(c)[n]);
        lemma_decimal_digits(c, n);
    } else if m < n {
        assert(x[m] == decimal(a)[m]);
        lemma_decimal_digits(a, m);
    }
    assert(x.take(n) =~= decimal(a));
    assert(y.take(n) =~= decimal(c));
    assert(x.skip(n + 1) =~= decimal(b));
    assert(y.skip(n + 1) =~= decimal(d));
    decimal_is_injective(a, c);
    decimal_is_injective(b, d);
}

proof fn lemma_decimal_nonempty(n: nat)
    ensures
        decimal(n).len() >= 1,
    decreases n,
{
    if n >= 10 {
        lemma_decimal_nonempty(n / 10);
    }
}

/// The value of a hexadecimal digit.
pub open spec fn hex_value_of(c: char) -> int {
    if '0' <= c && c <= '9' {
        c as int - '0' as int
    } else {
        10 + (c as int - 'a' as int)
    }
}

/// The number that hexadecimal digits write.
pub open spec fn hex_value(s: Seq<char>) -> int
    decreases s.len(),
{
    if s.len() == 0 {
        0
    } else {
        16 * hex_value(s.drop_last()) + hex_value_of(s.last())
    }
}

/// Hexadecimal digits write their number, up to as many digits as there are.
pub proof fn hex_digits_write_their_number(n: nat, width: nat)
    ensures
        hex_digits(n, width).len() == width,
        hex_value(hex_digits(n, width)) == n as int % vstd::arithmetic::power::pow(16, width),
        forall|i: int|
            0 <= i < width ==> ('0' <= #[trigger] hex_digits(n, width)[i] && hex_digits(
                n,
                width,
            )[i] <= '9') || ('a' <= hex_digits(n, width)[i] && hex_digits(n, width)[i] <= 'f'),
    decreases width,
{
    reveal(vstd::arithmetic::power::pow);
    if width > 0 {
        let less = (width - 1) as nat;
        hex_digits_write_their_number(n / 16, less);
        let s = hex_digits(n, width);
        assert(s.drop_last() =~= hex_digits(n / 16, less));
        assert(hex_value_of(s.last()) == n % 16);
        vstd::arithmetic::power::lemma_pow_positive(16, less);
        let p = vstd::arithmetic::power::pow(16, less);
        assert(vstd::arithmetic::power::pow(16, width) == 16 * p);
        vstd::arithmetic::div_mod::lemma_mod_breakdown(n as int, 16, p);
    }
}

} // verus!

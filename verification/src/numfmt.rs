use vstd::prelude::*;

verus! {

/// The character for the decimal digit `d` (meaningful for `d <= 9`).
pub open spec fn digit_char(d: nat) -> char {
    if d == 0 {
        '0'
    } else if d == 1 {
        '1'
    } else if d == 2 {
        '2'
    } else if d == 3 {
        '3'
    } else if d == 4 {
        '4'
    } else if d == 5 {
        '5'
    } else if d == 6 {
        '6'
    } else if d == 7 {
        '7'
    } else if d == 8 {
        '8'
    } else {
        '9'
    }
}

/// The decimal digits of `n`, most significant first, without leading zeros;
/// zero is written as the single digit `0`.
pub open spec fn dec_digits(n: nat) -> Seq<char>
    decreases n,
{
    if n < 10 {
        seq![digit_char(n)]
    } else {
        dec_digits(n / 10).push(digit_char(n % 10))
    }
}

/// The last `width` decimal digits of `n`, zero-padded on the left.  When
/// `n < 10^width` this is `n` written with exactly `width` digits.
pub open spec fn pad_digits(n: nat, width: nat) -> Seq<char>
    decreases width,
{
    if width == 0 {
        seq![]
    } else {
        pad_digits(n / 10, (width - 1) as nat).push(digit_char(n % 10))
    }
}

/// The decimal digits of `n` with `_` between groups of three, counted from
/// the right: `1234567` reads `1_234_567`.
pub open spec fn grouped_digits(n: nat) -> Seq<char>
    decreases n,
{
    if n < 1000 {
        dec_digits(n)
    } else {
        grouped_digits(n / 1000) + seq!['_'] + pad_digits(n % 1000, 3)
    }
}

/// `a / b` rounded to the nearest integer, half away from zero; `0` when
/// `b == 0` (division by zero is a defined, harmless outcome here).
pub open spec fn rounded_div(a: nat, b: nat) -> nat {
    if b == 0 {
        0
    } else {
        (a + b / 2) / b
    }
}

/// A number with three implied decimal places, written in fixed point:
/// `m` thousandths read `m/1000` `.` and three padded digits, `12034`
/// reading `12.034`.
pub open spec fn fixed3_text(m: nat) -> Seq<char> {
    dec_digits(m / 1000) + seq!['.'] + pad_digits(m % 1000, 3)
}

/// A percentage with two implied decimal places: `h` hundredths of a percent
/// read as `h/100` `.` two padded digits and `%`, `1050` reading `10.50%`.
pub open spec fn percent2_text(h: nat) -> Seq<char> {
    dec_digits(h / 100) + seq!['.'] + pad_digits(h % 100, 2) + seq!['%']
}

/// One decimal digit as a string slice.
fn digit_str(d: u128) -> (s: &'static str)
    requires
        d < 10,
    ensures
        s@ == seq![digit_char(d as nat)],
{
    proof {
        reveal_strlit("0");
        reveal_strlit("1");
        reveal_strlit("2");
        reveal_strlit("3");
        reveal_strlit("4");
        reveal_strlit("5");
        reveal_strlit("6");
        reveal_strlit("7");
        reveal_strlit("8");
        reveal_strlit("9");
    }
    let s = if d == 0 {
        "0"
    } else if d == 1 {
        "1"
    } else if d == 2 {
        "2"
    } else if d == 3 {
        "3"
    } else if d == 4 {
        "4"
    } else if d == 5 {
        "5"
    } else if d == 6 {
        "6"
    } else if d == 7 {
        "7"
    } else if d == 8 {
        "8"
    } else {
        "9"
    };
    proof {
        assert(s@ =~= seq![digit_char(d as nat)]);
    }
    s
}

/// `n` in plain decimal.
pub fn to_decimal(n: u128) -> (s: String)
    ensures
        s@ == dec_digits(n as nat),
    decreases n,
{
    if n < 10 {
        let s = String::from_str(digit_str(n));
        proof {
            assert(s@ =~= dec_digits(n as nat));
        }
        s
    } else {
        let s = to_decimal(n / 10).concat(digit_str(n % 10));
        proof {
            assert(s@ =~= dec_digits(n as nat));
        }
        s
    }
}

/// The last `width` decimal digits of `n`, zero-padded on the left.
pub fn to_padded(n: u128, width: u32) -> (s: String)
    ensures
        s@ == pad_digits(n as nat, width as nat),
    decreases width,
{
    if width == 0 {
        let s = String::new();
        proof {
            assert(s@ =~= pad_digits(n as nat, 0));
        }
        s
    } else {
        let s = to_padded(n / 10, width - 1).concat(digit_str(n % 10));
        proof {
            assert(s@ =~= pad_digits(n as nat, width as nat));
        }
        s
    }
}

/// Relies on num_format's `ToFormattedString::to_formatted_string` with
/// `Locale::en`: the decimal digits of `n` separated into groups of three by
/// `,`, which the body turns into `_`.
#[verifier::external_body]
pub fn group_u128(n: u128) -> (s: String)
    ensures
        s@ == grouped_digits(n as nat),
{
    num_format::ToFormattedString::to_formatted_string(&n, &num_format::Locale::en).replace(',', "_")
}

/// `n` in decimal with `_` digit grouping.
pub fn group_u64(n: u64) -> (s: String)
    ensures
        s@ == grouped_digits(n as nat),
{
    group_u128(n as u128)
}

/// `a / b` rounded to nearest, half away from zero; `0` when `b == 0`.
pub fn rounded_div_u64(a: u64, b: u64) -> (r: u64)
    ensures
        r == rounded_div(a as nat, b as nat),
{
    if b == 0 {
        return 0;
    }
    let q = a / b;
    let rem = a % b;
    proof {
        vstd::arithmetic::div_mod::lemma_fundamental_div_mod(a as int, b as int);
        assert(a as int == (b as int) * (q as int) + rem as int);
    }
    // Rounding up happens exactly when the remainder reaches half of `b`,
    // that is `rem + b/2 >= b`.
    if rem >= b - b / 2 {
        proof {
            assert(b >= 2);
            assert((b as int) * (q as int) >= 2 * (q as int)) by (nonlinear_arith)
                requires
                    b >= 2,
                    q >= 0,
            ;
            assert((q as int + 1) * (b as int) == (b as int) * (q as int) + b as int)
                by (nonlinear_arith);
            vstd::arithmetic::div_mod::lemma_fundamental_div_mod_converse(
                a as int + (b as int) / 2,
                b as int,
                q as int + 1,
                rem as int + (b as int) / 2 - b as int,
            );
        }
        q + 1
    } else {
        proof {
            assert((q as int) * (b as int) == (b as int) * (q as int)) by (nonlinear_arith);
            vstd::arithmetic::div_mod::lemma_fundamental_div_mod_converse(
                a as int + (b as int) / 2,
                b as int,
                q as int,
                rem as int + (b as int) / 2,
            );
        }
        q
    }
}

/// A number of thousandth-units in fixed point with three decimals.
pub fn to_fixed3(m: u64) -> (s: String)
    ensures
        s@ == fixed3_text(m as nat),
{
    proof {
        reveal_strlit(".");
    }
    let s = to_decimal((m / 1000) as u128).concat(".").concat(to_padded((m % 1000) as u128, 3).as_str());
    proof {
        assert(s@ =~= fixed3_text(m as nat));
    }
    s
}

/// A count of hundredths of a percent as a two-decimal percentage.
pub fn to_percent2(h: u64) -> (s: String)
    ensures
        s@ == percent2_text(h as nat),
{
    proof {
        reveal_strlit(".");
        reveal_strlit("%");
    }
    let s = to_decimal((h / 100) as u128).concat(".").concat(to_padded((h % 100) as u128, 2).as_str()).concat(
        "%",
    );
    proof {
        assert(s@ =~= percent2_text(h as nat));
    }
    s
}

} // verus!

//! Numbers as text.

use vstd::prelude::*;

verus! {

/// The digit for a value below sixteen.
pub open spec fn digit(v: int) -> char {
    if v < 10 {
        ('0' as u32 + v) as char
    } else {
        ('a' as u32 + v - 10) as char
    }
}

/// The digits of a number, most significant first.
pub open spec fn number(n: nat, radix: nat) -> Seq<char>
    decreases n,
{
    if radix < 2 || n < radix {
        seq![digit(n as int)]
    } else {
        proof {
            assert(n / radix < n) by (nonlinear_arith)
                requires
                    n >= radix,
                    radix >= 2,
            ;
        }
        number(n / radix, radix).push(digit((n % radix) as int))
    }
}

/// The last `width` digits of a number.
pub open spec fn padded(n: nat, radix: nat, width: nat) -> Seq<char>
    decreases width,
{
    if width == 0 {
        Seq::empty()
    } else {
        padded(n / radix, radix, (width - 1) as nat).push(digit((n % radix) as int))
    }
}

/// The digit for a value below sixteen.
fn digit_str(v: u8) -> (r: &'static str)
    requires
        v < 16,
    ensures
        r@ == seq![digit(v as int)],
{
    proof {
        reveal_strlit("0");
        reveal_strlit("1");
        reveal_strlit("2");
        reveal_strlit("3");
        reveal_strlit("4");
        reveal_strlit("5");
        reveal_strlit("6");
        reveal_strlit("7");
        reveal_strlit("8");
        reveal_strlit("9");
        reveal_strlit("a");
        reveal_strlit("b");
        reveal_strlit("c");
        reveal_strlit("d");
        reveal_strlit("e");
        reveal_strlit("f");
    }
    let r = match v {
        0 => "0",
        1 => "1",
        2 => "2",
        3 => "3",
        4 => "4",
        5 => "5",
        6 => "6",
        7 => "7",
        8 => "8",
        9 => "9",
        10 => "a",
        11 => "b",
        12 => "c",
        13 => "d",
        14 => "e",
        _ => "f",
    };
    assert(r@ =~= seq![digit(v as int)]);
    r
}

/// Appends the digits of a number in base ten.
pub fn push_decimal(text: &mut String, n: u64)
    ensures
        final(text)@ == old(text)@ + number(n as nat, 10),
    decreases n,
{
    let ghost before = text@;
    if n >= 10 {
        push_decimal(text, n / 10);
    } else {
        assert(before + Seq::<char>::empty() =~= before);
    }
    text.append(digit_str((n % 10) as u8));
    assert(text@ =~= before + number(n as nat, 10));
}

/// Appends the last `width` digits of a number in base sixteen.
pub fn push_hex(text: &mut String, n: u64, width: usize)
    ensures
        final(text)@ == old(text)@ + padded(n as nat, 16, width as nat),
    decreases width,
{
    let ghost before = text@;
    if width == 0 {
        assert(before + Seq::<char>::empty() =~= before);
        return;
    }
    push_hex(text, n / 16, width - 1);
    text.append(digit_str((n % 16) as u8));
    assert(text@ =~= before + padded(n as nat, 16, width as nat));
}

/// The digits of a number in base sixteen, at least `width` of them.
pub open spec fn wide_hex(n: nat, width: nat) -> Seq<char>
    decreases n, width,
{
    if n < 16 && width <= 1 {
        seq![digit(n as int)]
    } else {
        wide_hex(
            n / 16,
            (if width == 0 {
                0
            } else {
                width - 1
            }) as nat,
        ).push(digit((n % 16) as int))
    }
}

/// Appends the digits of a number in base sixteen, at least `width` of them.
pub fn push_wide_hex(text: &mut String, n: u64, width: usize)
    ensures
        final(text)@ == old(text)@ + wide_hex(n as nat, width as nat),
    decreases n, width,
{
    let ghost before = text@;
    if n >= 16 || width > 1 {
        let rest: usize = if width == 0 {
            0
        } else {
            width - 1
        };
        push_wide_hex(text, n / 16, rest);
    } else {
        assert(before + Seq::<char>::empty() =~= before);
    }
    text.append(digit_str((n % 16) as u8));
    assert(text@ =~= before + wide_hex(n as nat, width as nat));
}

/// The digit for a value below sixteen, with a capital letter.
pub open spec fn capital_digit(v: int) -> char {
    if v < 10 {
        ('0' as u32 + v) as char
    } else {
        ('A' as u32 + v - 10) as char
    }
}

/// The last `width` digits of a number in base sixteen, with capital letters.
pub open spec fn capitals(n: nat, width: nat) -> Seq<char>
    decreases width,
{
    if width == 0 {
        Seq::empty()
    } else {
        capitals(n / 16, (width - 1) as nat).push(capital_digit((n % 16) as int))
    }
}

/// The digit for a value below sixteen, with a capital letter.
fn capital_str(v: u8) -> (r: &'static str)
    requires
        v < 16,
    ensures
        r@ == seq![capital_digit(v as int)],
{
    if v < 10 {
        return digit_str(v);
    }
    proof {
        reveal_strlit("A");
        reveal_strlit("B");
        reveal_strlit("C");
        reveal_strlit("D");
        reveal_strlit("E");
        reveal_strlit("F");
    }
    let r = match v {
        10 => "A",
        11 => "B",
        12 => "C",
        13 => "D",
        14 => "E",
        _ => "F",
    };
    assert(r@ =~= seq![capital_digit(v as int)]);
    r
}

/// Appends the last `width` digits of a number in base sixteen, with capital letters.
pub fn push_capitals(text: &mut String, n: u64, width: usize)
    ensures
        final(text)@ == old(text)@ + capitals(n as nat, width as nat),
    decreases width,
{
    let ghost before = text@;
    if width == 0 {
        assert(before + Seq::<char>::empty() =~= before);
        return;
    }
    push_capitals(text, n / 16, width - 1);
    text.append(capital_str((n % 16) as u8));
    assert(text@ =~= before + capitals(n as nat, width as nat));
}

/// The value of a digit.
pub open spec fn digit_value(c: char) -> int {
    if '0' <= c <= '9' {
        c as int - '0' as int
    } else if 'a' <= c <= 'f' {
        c as int - 'a' as int + 10
    } else {
        c as int - 'A' as int + 10
    }
}

/// The number that digits stand for, the most significant first.
pub open spec fn value_of(digits: Seq<char>, radix: int) -> int
    decreases digits.len(),
{
    if digits.len() == 0 {
        0
    } else {
        value_of(digits.drop_last(), radix) * radix + digit_value(digits.last())
    }
}

/// The character is a digit of a radix up to sixteen, written with a small letter.
pub open spec fn is_small_digit(c: char) -> bool {
    '0' <= c <= '9' || 'a' <= c <= 'f'
}

/// The character is a digit of a radix up to sixteen, written with a capital letter.
pub open spec fn is_capital_digit(c: char) -> bool {
    '0' <= c <= '9' || 'A' <= c <= 'F'
}

proof fn lemma_digit(v: int)
    requires
        0 <= v < 16,
    ensures
        digit_value(digit(v)) == v,
        is_small_digit(digit(v)),
        digit_value(capital_digit(v)) == v,
        is_capital_digit(capital_digit(v)),
        digit(v) == '0' ==> v == 0,
{
}

/// Written in base ten, a number reads back as itself, with digits only, and starts with a zero only
/// if it is zero.
pub proof fn law_number(n: nat)
    ensures
        value_of(number(n, 10), 10) == n,
        number(n, 10).len() > 0,
        forall|i: int| 0 <= i < number(n, 10).len() ==> '0' <= #[trigger] number(n, 10)[i] <= '9',
        number(n, 10)[0] == '0' ==> n == 0 && number(n, 10).len() == 1,
    decreases n,
{
    lemma_digit((n % 10) as int);
    if n < 10 {
        lemma_digit(n as int);
        assert(number(n, 10).drop_last() =~= Seq::empty());
        assert(value_of(Seq::<char>::empty(), 10) == 0);
    } else {
        law_number(n / 10);
        let rest = number(n / 10, 10);
        assert(number(n, 10).drop_last() =~= rest);
        assert(number(n, 10)[0] == rest[0]);
        assert forall|i: int| 0 <= i < number(n, 10).len() implies '0' <= #[trigger] number(n, 10)[i]
            <= '9' by {
            if i < rest.len() {
                assert(number(n, 10)[i] == rest[i]);
            }
        }
    }
}

/// Written in base sixteen with a fixed number of digits, a number that has no more reads back as
/// itself, with small letters and with capital ones.
pub proof fn law_fixed_hex(n: nat, width: nat)
    requires
        n < vstd::arithmetic::power::pow(16, width),
    ensures
        padded(n, 16, width).len() == width,
        value_of(padded(n, 16, width), 16) == n,
        forall|i: int| 0 <= i < width ==> is_small_digit(#[trigger] padded(n, 16, width)[i]),
        capitals(n, width).len() == width,
        value_of(capitals(n, width), 16) == n,
        forall|i: int| 0 <= i < width ==> is_capital_digit(#[trigger] capitals(n, width)[i]),
    decreases width,
{
    reveal(vstd::arithmetic::power::pow);
    if width > 0 {
        let before = (width - 1) as nat;
        lemma_digit((n % 16) as int);
        let part = vstd::arithmetic::power::pow(16, before);
        assert(vstd::arithmetic::power::pow(16, width) == 16 * part);
        assert(n / 16 < part);
        law_fixed_hex(n / 16, before);
        let small = padded(n / 16, 16, before);
        let large = capitals(n / 16, before);
        assert(padded(n, 16, width).drop_last() =~= small);
        assert(capitals(n, width).drop_last() =~= large);
        assert forall|i: int| 0 <= i < width implies is_small_digit(
            #[trigger] padded(n, 16, width)[i],
        ) by {
            if i < before {
                assert(padded(n, 16, width)[i] == small[i]);
            }
        }
        assert forall|i: int| 0 <= i < width implies is_capital_digit(
            #[trigger] capitals(n, width)[i],
        ) by {
            if i < before {
                assert(capitals(n, width)[i] == large[i]);
            }
        }
    }
}

/// Written in base sixteen with at least so many digits, a number reads back as itself, and starts
/// with a zero only as far as it is filled up.
pub proof fn law_wide_hex(n: nat, width: nat)
    ensures
        value_of(wide_hex(n, width), 16) == n,
        wide_hex(n, width).len() >= width,
        wide_hex(n, width).len() >= 1,
        n < 16 ==> wide_hex(n, width).len() == (if width == 0 {
            1
        } else {
            width
        }),
        wide_hex(n, width).len() > width ==> wide_hex(n, width)[0] != '0' || n == 0,
        forall|i: int|
            0 <= i < wide_hex(n, width).len() ==> is_small_digit(#[trigger] wide_hex(n, width)[i]),
    decreases n, width,
{
    lemma_digit((n % 16) as int);
    if n < 16 && width <= 1 {
        lemma_digit(n as int);
        assert(wide_hex(n, width).drop_last() =~= Seq::empty());
        assert(value_of(Seq::<char>::empty(), 16) == 0);
    } else {
        let narrow = (if width == 0 {
            0
        } else {
            width - 1
        }) as nat;
        law_wide_hex(n / 16, narrow);
        let rest = wide_hex(n / 16, narrow);
        assert(wide_hex(n, width).drop_last() =~= rest);
        assert(wide_hex(n, width)[0] == rest[0]);
        assert forall|i: int| 0 <= i < wide_hex(n, width).len() implies is_small_digit(
            #[trigger] wide_hex(n, width)[i],
        ) by {
            if i < rest.len() {
                assert(wide_hex(n, width)[i] == rest[i]);
            }
        }
    }
}

} // verus!

//! Numbers as text, for error messages.
use vstd::prelude::*;

verus! {

/// The digit of a number below 16, in lower case.
pub open spec fn digit(d: int) -> char {
    seq!['0', '1', '2', '3', '4', '5', '6', '7', '8', '9', 'a', 'b', 'c', 'd', 'e', 'f'][d]
}

/// A number written in base `base`, without leading zeros.
pub open spec fn written(n: nat, base: nat) -> Seq<char>
    decreases n,
{
    if n < base || base < 2 {
        seq![digit(n as int)]
    } else {
        proof {
            vstd::arithmetic::div_mod::lemma_div_decreases(n as int, base as int);
        }
        written(n / base, base).push(digit((n % base) as int))
    }
}

/// A number in decimal.
pub open spec fn decimal(n: nat) -> Seq<char> {
    written(n, 10)
}

/// A number in hexadecimal.
pub open spec fn hexadecimal(n: nat) -> Seq<char> {
    written(n, 16)
}

fn digit_text(d: u64) -> (r: &'static str)
    requires
        d < 16,
    ensures
        r@ == seq![digit(d as int)],
{
    proof {
        reveal_strlit("0");
        reveal_strlit("1");
        reveal_strlit("2");
        reveal_strlit("3");
        reveal_strlit("4");
        reveal_strlit("5");
        reveal_strlit("6");
        reveal_strlit("7");
        reveal_strlit("8");
        reveal_strlit("9");
        reveal_strlit("a");
        reveal_strlit("b");
        reveal_strlit("c");
        reveal_strlit("d");
        reveal_strlit("e");
        reveal_strlit("f");
    }
    let r: &'static str = match d {
        0 => "0",
        1 => "1",
        2 => "2",
        3 => "3",
        4 => "4",
        5 => "5",
        6 => "6",
        7 => "7",
        8 => "8",
        9 => "9",
        10 => "a",
        11 => "b",
        12 => "c",
        13 => "d",
        14 => "e",
        _ => "f",
    };
    assert(r@ =~= seq![digit(d as int)]);
    r
}

fn push_number(out: &mut String, n: u64, base: u64)
    requires
        2 <= base <= 16,
    ensures
        final(out)@ == old(out)@ + written(n as nat, base as nat),
    decreases n,
{
    let ghost before = out@;
    if n < base {
        out.append(digit_text(n));
    } else {
        proof {
            vstd::arithmetic::div_mod::lemma_div_decreases(n as int, base as int);
        }
        push_number(out, n / base, base);
        out.append(digit_text(n % base));
    }
    assert(out@ =~= before + written(n as nat, base as nat));
}

/// Appends a number in decimal.
pub fn push_decimal(out: &mut String, n: u64)
    ensures
        final(out)@ == old(out)@ + decimal(n as nat),
{
    push_number(out, n, 10);
}

/// Appends a number in hexadecimal.
pub fn push_hexadecimal(out: &mut String, n: u64)
    ensures
        final(out)@ == old(out)@ + hexadecimal(n as nat),
{
    push_number(out, n, 16);
}

/// The value of a character as a digit: '0' to '9' are 0 to 9, 'a' to 'f' are 10 to 15.
pub open spec fn digit_value(c: char) -> int {
    if '0' <= c && c <= '9' {
        c as int - 48
    } else {
        c as int - 97 + 10
    }
}

/// The number that digits stand for, the last one being the lowest.
pub open spec fn value_of(s: Seq<char>, base: nat) -> int
    decreases s.len(),
{
    if s.len() == 0 {
        0
    } else {
        value_of(s.drop_last(), base) * base + digit_value(s.last())
    }
}

/// A written number reads back as itself, has only digits of its base, and starts with 0
/// only if it is 0.
pub proof fn law_written_numbers_read_back(n: nat, base: nat)
    requires
        2 <= base <= 16,
    ensures
        value_of(written(n, base), base) == n,
        written(n, base).len() > 0,
        n > 0 ==> written(n, base)[0] != '0',
        n == 0 ==> written(n, base) == seq!['0'],
        forall|i: int|
            0 <= i < written(n, base).len() ==> {
                let c = #[trigger] written(n, base)[i];
                &&& ('0' <= c && c <= '9') || ('a' <= c && c <= 'f')
                &&& 0 <= digit_value(c) < base
            },
    decreases n,
{
    let s = written(n, base);
    if n < base {
        assert(s.drop_last() =~= Seq::empty());
        assert(value_of(s.drop_last(), base) == 0);
        assert(value_of(s.drop_last(), base) * base == 0) by (nonlinear_arith)
            requires
                value_of(s.drop_last(), base) == 0,
        ;
    } else {
        vstd::arithmetic::div_mod::lemma_div_decreases(n as int, base as int);
        vstd::arithmetic::div_mod::lemma_fundamental_div_mod(n as int, base as int);
        vstd::arithmetic::div_mod::lemma_mod_bound(n as int, base as int);
        assert(n / base > 0) by {
            vstd::arithmetic::div_mod::lemma_div_non_zero(n as int, base as int);
        }
        law_written_numbers_read_back(n / base, base);
        assert(s.drop_last() =~= written(n / base, base));
        assert(base * (n / base) == (n / base) * base) by (nonlinear_arith);
    }
}

} // verus!

use vstd::prelude::*;

verus! {

/// The character of a decimal digit.
pub open spec fn digit_char(d: nat) -> char {
    if d == 0 { '0' }
    else if d == 1 { '1' }
    else if d == 2 { '2' }
    else if d == 3 { '3' }
    else if d == 4 { '4' }
    else if d == 5 { '5' }
    else if d == 6 { '6' }
    else if d == 7 { '7' }
    else if d == 8 { '8' }
    else { '9' }
}

/// The decimal numeral of `n`, without sign or leading zeros (`0` for zero),
/// as Rust prints an unsigned integer.
pub open spec fn decimal(n: nat) -> Seq<char>
    decreases n,
{
    if n < 10 {
        seq![digit_char(n)]
    } else {
        decimal(n / 10).push(digit_char(n % 10))
    }
}

/// `c` is a decimal digit.
pub open spec fn is_digit(c: char) -> bool {
    48 <= (c as int) <= 57
}

/// Every character of `s` is a decimal digit.
pub open spec fn all_digits(s: Seq<char>) -> bool {
    forall|i: int| 0 <= i < s.len() ==> is_digit(#[trigger] s[i])
}

/// The number that a string of decimal digits denotes.
pub open spec fn numeral_value(s: Seq<char>) -> int
    decreases s.len(),
{
    if s.len() == 0 {
        0
    } else {
        numeral_value(s.drop_last()) * 10 + ((s.last() as int) - 48)
    }
}

/// A decimal numeral is a nonempty string of digits that denotes its number.
pub proof fn lemma_decimal_denotes(n: nat)
    ensures
        decimal(n).len() > 0,
        all_digits(decimal(n)),
        numeral_value(decimal(n)) == n,
    decreases n,
{
    assert(forall|k: nat| k < 10 ==> (#[trigger] digit_char(k) as int) - 48 == k);
    if n < 10 {
        let d = decimal(n);
        assert(d.drop_last() =~= Seq::<char>::empty());
        assert(numeral_value(d.drop_last()) == 0);
        assert(d.last() == digit_char(n));
        assert((digit_char(n) as int) - 48 == n);
        assert(numeral_value(d) == numeral_value(d.drop_last()) * 10 + ((d.last() as int) - 48));
    } else {
        lemma_decimal_denotes(n / 10);
        let d = decimal(n);
        assert(d.drop_last() =~= decimal(n / 10));
        assert((n / 10) * 10 + n % 10 == n) by (nonlinear_arith);
        assert(numeral_value(d) == numeral_value(decimal(n / 10)) * 10 + (n % 10));
        assert(all_digits(d)) by {
            assert forall|i: int| 0 <= i < d.len() implies is_digit(#[trigger] d[i]) by {
                if i < d.len() - 1 {
                    assert(d[i] == decimal(n / 10)[i]);
                }
            }
        }
    }
}

/// Different numbers have different numerals.
pub proof fn lemma_decimal_injective(a: nat, b: nat)
    ensures
        decimal(a) == decimal(b) ==> a == b,
{
    lemma_decimal_denotes(a);
    lemma_decimal_denotes(b);
}

/// A numeral followed by a text that starts with something other than a
/// digit can be split off again: from equal texts `decimal(n1) + q1` and
/// `decimal(n2) + q2`, where `q1` and `q2` start with a non-digit, follow
/// equal numbers and equal rests.
pub proof fn lemma_split_numeral(n1: nat, q1: Seq<char>, n2: nat, q2: Seq<char>)
    requires
        q1.len() > 0,
        q2.len() > 0,
        !is_digit(q1[0]),
        !is_digit(q2[0]),
        decimal(n1) + q1 == decimal(n2) + q2,
    ensures
        n1 == n2,
        q1 == q2,
{
    lemma_decimal_denotes(n1);
    lemma_decimal_denotes(n2);
    let p1 = decimal(n1);
    let p2 = decimal(n2);
    let whole = p1 + q1;
    if p1.len() < p2.len() {
        assert(whole[p1.len() as int] == q1[0]);
        assert(whole[p1.len() as int] == p2[p1.len() as int]);
    } else if p2.len() < p1.len() {
        assert(whole[p2.len() as int] == q2[0]);
        assert(whole[p2.len() as int] == p1[p2.len() as int]);
    }
    assert(p1 =~= whole.subrange(0, p1.len() as int));
    assert(p2 =~= whole.subrange(0, p2.len() as int));
    lemma_decimal_injective(n1, n2);
    assert(q1 =~= whole.subrange(p1.len() as int, whole.len() as int));
    assert(q2 =~= whole.subrange(p2.len() as int, whole.len() as int));
}

/// Equal texts after the same start are equal.
pub proof fn lemma_strip_start(l: Seq<char>, a: Seq<char>, b: Seq<char>)
    requires
        l + a == l + b,
    ensures
        a == b,
{
    assert(a =~= (l + a).subrange(l.len() as int, (l + a).len() as int));
    assert(b =~= (l + b).subrange(l.len() as int, (l + b).len() as int));
}

fn digit_str(d: u64) -> (s: &'static str)
    requires
        d < 10,
    ensures
        s@ == seq![digit_char(d as nat)],
{
    proof {
        reveal_strlit("0");
        reveal_strlit("1");
        reveal_strlit("2");
        reveal_strlit("3");
        reveal_strlit("4");
        reveal_strlit("5");
        reveal_strlit("6");
        reveal_strlit("7");
        reveal_strlit("8");
        reveal_strlit("9");
    }
    match d {
        0 => "0",
        1 => "1",
        2 => "2",
        3 => "3",
        4 => "4",
        5 => "5",
        6 => "6",
        7 => "7",
        8 => "8",
        _ => "9",
    }
}

/// Appends the decimal numeral of `n` to `s`.
pub fn push_decimal(s: &mut String, n: u64)
    ensures
        final(s)@ == old(s)@ + decimal(n as nat),
    decreases n,
{
    if n >= 10 {
        push_decimal(s, n / 10);
    }
    s.append(digit_str(n % 10));
    proof {
        assert(old(s)@ + decimal(n as nat) =~= if n >= 10 {
            (old(s)@ + decimal((n / 10) as nat)).push(digit_char((n % 10) as nat))
        } else {
            old(s)@.push(digit_char(n as nat))
        });
    }
}

/// Appends a text to `s`.
pub fn push_text(s: &mut String, t: &str)
    ensures
        final(s)@ == old(s)@ + t@,
{
    s.append(t);
}

} // verus!

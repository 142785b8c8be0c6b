//! Numbers written in decimal, as the journal reads `PRIORITY` and `CODE_LINE`.
use vstd::prelude::*;
use vstd::string::*;

verus! {

/// The decimal digit for `d`, which is below ten.
pub open spec fn cifra(d: nat) -> char {
    seq!['0', '1', '2', '3', '4', '5', '6', '7', '8', '9'][d as int]
}

/// The decimal writing of `n`, most significant digit first, without leading zeros.
pub open spec fn decimal(n: nat) -> Seq<char>
    decreases n,
{
    if n < 10 {
        seq![cifra(n)]
    } else {
        decimal(n / 10).push(cifra(n % 10))
    }
}

/// The number that a string of decimal digits stands for, read left to right.
pub open spec fn valor_decimal(s: Seq<char>) -> int
    decreases s.len(),
{
    if s.len() == 0 {
        0
    } else {
        10 * valor_decimal(s.drop_last()) + (s.last() as int - 48)
    }
}

proof fn lema_cifra(d: nat)
    requires
        d < 10,
    ensures
        cifra(d) as int == 48 + d,
{
    let t = seq!['0', '1', '2', '3', '4', '5', '6', '7', '8', '9'];
    assert(t[0] == '0' && t[1] == '1' && t[2] == '2' && t[3] == '3' && t[4] == '4');
    assert(t[5] == '5' && t[6] == '6' && t[7] == '7' && t[8] == '8' && t[9] == '9');
}

/// Writing a number in decimal gives only the characters `0` to `9`, without a
/// leading zero (but for zero itself, written `0`), and reading them back gives the
/// number.
pub proof fn ley_decimal(n: nat)
    ensures
        decimal(n).len() >= 1,
        forall|i: int| 0 <= i < decimal(n).len() ==> '0' <= #[trigger] decimal(n)[i] <= '9',
        valor_decimal(decimal(n)) == n,
        decimal(n)[0] == '0' ==> n == 0 && decimal(n).len() == 1,
    decreases n,
{
    let d = decimal(n);
    if n < 10 {
        lema_cifra(n);
        assert(d.drop_last() =~= Seq::<char>::empty());
        assert(valor_decimal(d.drop_last()) == 0);
        assert(valor_decimal(d) == 10 * valor_decimal(d.drop_last()) + (d.last() as int - 48));
    } else {
        lema_cifra(n % 10);
        ley_decimal(n / 10);
        let a = decimal(n / 10);
        assert(d.drop_last() =~= a);
        assert(d.last() == cifra(n % 10));
        assert(valor_decimal(d) == 10 * valor_decimal(a) + (d.last() as int - 48));
        assert(n == 10 * (n / 10) + n % 10);
        assert(d[0] == a[0]);
        assert forall|i: int| 0 <= i < d.len() implies '0' <= #[trigger] d[i] <= '9' by {
            if i < a.len() {
                assert(d[i] == a[i]);
            }
        }
    }
}

fn texto_de_cifra(d: u32) -> (r: &'static str)
    requires
        d < 10,
    ensures
        r@ == seq![cifra(d as nat)],
{
    if d == 0 {
        proof { reveal_strlit("0"); }
        "0"
    } else if d == 1 {
        proof { reveal_strlit("1"); }
        "1"
    } else if d == 2 {
        proof { reveal_strlit("2"); }
        "2"
    } else if d == 3 {
        proof { reveal_strlit("3"); }
        "3"
    } else if d == 4 {
        proof { reveal_strlit("4"); }
        "4"
    } else if d == 5 {
        proof { reveal_strlit("5"); }
        "5"
    } else if d == 6 {
        proof { reveal_strlit("6"); }
        "6"
    } else if d == 7 {
        proof { reveal_strlit("7"); }
        "7"
    } else if d == 8 {
        proof { reveal_strlit("8"); }
        "8"
    } else {
        proof { reveal_strlit("9"); }
        "9"
    }
}

/// `n` written in decimal.
pub fn en_decimal(n: u32) -> (r: String)
    ensures
        r@ == decimal(n as nat),
        r@.len() >= 1,
        forall|i: int| 0 <= i < r@.len() ==> '0' <= #[trigger] r@[i] <= '9',
        valor_decimal(r@) == n,
        r@[0] == '0' ==> n == 0 && r@.len() == 1,
    decreases n,
{
    proof {
        ley_decimal(n as nat);
    }
    if n < 10 {
        String::from_str(texto_de_cifra(n))
    } else {
        let mut r = en_decimal(n / 10);
        r.append(texto_de_cifra(n % 10));
        proof {
            assert(seq![cifra((n % 10) as nat)] =~= Seq::<char>::empty().push(cifra((n % 10) as nat)));
        }
        r
    }
}

} // verus!

//! Numbers and column names as text.

use vstd::prelude::*;
use vstd::string::*;

verus! {

/// The character of the digit `d`.
pub open spec fn digit(d: nat) -> char {
    "0123456789"@[d as int]
}

/// The digits of `n` in base ten.
pub open spec fn decimal(n: nat) -> Seq<char>
    decreases n,
{
    if n < 10 {
        seq![digit(n)]
    } else {
        decimal(n / 10).push(digit(n % 10))
    }
}

/// The number `n` in base ten, with a minus sign in front if it is negative.
pub open spec fn signed_decimal(n: int) -> Seq<char> {
    if n >= 0 {
        decimal(n as nat)
    } else {
        seq!['-'] + decimal((-n) as nat)
    }
}

/// The `d`-th capital letter, counted from zero.
pub open spec fn letter(d: nat) -> char {
    "ABCDEFGHIJKLMNOPQRSTUVWXYZ"@[d as int]
}

/// The letters of the column `n`, counted from zero: `A` to `Z`, then `AA`
/// to `AZ`, `BA` and so on.
pub open spec fn column_letters(n: nat) -> Seq<char>
    decreases n,
{
    if n < 26 {
        seq![letter(n)]
    } else {
        column_letters((n / 26 - 1) as nat).push(letter(n % 26))
    }
}

/// The name of the column `x`: its letters, and for a column left of column
/// zero an `n` followed by the letters of the column as far to the left of
/// column `-1` as that one is to the right of column zero.
pub open spec fn spec_column_name(x: int) -> Seq<char> {
    if x >= 0 {
        column_letters(x as nat)
    } else {
        seq!['n'] + column_letters((-(x + 1)) as nat)
    }
}

/// Different digits have different characters.
pub proof fn lemma_digit_injective(a: nat, b: nat)
    requires
        a < 10,
        b < 10,
        digit(a) == digit(b),
    ensures
        a == b,
{
    reveal_strlit("0123456789");
}

/// Different numbers have different digits in base ten.
pub proof fn lemma_decimal_injective(a: nat, b: nat)
    requires
        decimal(a) == decimal(b),
    ensures
        a == b,
    decreases a,
{
    lemma_decimal_len(a);
    lemma_decimal_len(b);
    if a < 10 && b < 10 {
        assert(decimal(a)[0] == digit(a));
        assert(decimal(b)[0] == digit(b));
        lemma_digit_injective(a, b);
    } else if a >= 10 && b >= 10 {
        let da = decimal(a / 10);
        let db = decimal(b / 10);
        assert(decimal(a).drop_last() =~= da);
        assert(decimal(b).drop_last() =~= db);
        assert(decimal(a).last() == digit(a % 10));
        assert(decimal(b).last() == digit(b % 10));
        lemma_decimal_injective(a / 10, b / 10);
        lemma_digit_injective(a % 10, b % 10);
    } else if a >= 10 {
        lemma_decimal_len(a / 10);
    } else {
        lemma_decimal_len(b / 10);
    }
}

/// A number has at least one digit.
pub proof fn lemma_decimal_len(n: nat)
    ensures
        decimal(n).len() >= 1,
        n < 10 ==> decimal(n).len() == 1,
        n >= 10 ==> decimal(n).len() >= 2,
    decreases n,
{
    if n >= 10 {
        lemma_decimal_len(n / 10);
    }
}

/// The digits of `n` in base ten.
pub fn decimal_string(n: u128) -> (r: String)
    ensures
        r@ == decimal(n as nat),
    decreases n,
{
    proof {
        reveal_strlit("0123456789");
    }
    if n < 10 {
        let d: usize = n as usize;
        let r = "0123456789".substring_char(d, d + 1).to_owned();
        assert(r@ =~= seq![digit(n as nat)]);
        r
    } else {
        let mut s: String = decimal_string(n / 10);
        let d: usize = (n % 10) as usize;
        s.append("0123456789".substring_char(d, d + 1));
        assert(s@ =~= decimal(n as nat));
        s
    }
}

/// The number `n` in base ten, with a minus sign in front if it is negative.
pub fn signed_decimal_string(n: i64) -> (r: String)
    ensures
        r@ == signed_decimal(n as int),
{
    if n >= 0 {
        decimal_string(n as u128)
    } else {
        proof {
            reveal_strlit("-");
        }
        let magnitude: i128 = -(n as i128);
        let mut r: String = "-".to_owned();
        r.append(decimal_string(magnitude as u128).as_str());
        assert(r@ =~= seq!['-'] + decimal((-n) as nat));
        r
    }
}

/// The letters of the column `n`, counted from zero.
fn column_letters_string(n: u64) -> (r: String)
    ensures
        r@ == column_letters(n as nat),
    decreases n,
{
    proof {
        reveal_strlit("ABCDEFGHIJKLMNOPQRSTUVWXYZ");
    }
    let d: usize = (n % 26) as usize;
    if n < 26 {
        let r = "ABCDEFGHIJKLMNOPQRSTUVWXYZ".substring_char(d, d + 1).to_owned();
        assert(r@ =~= seq![letter(n as nat)]);
        r
    } else {
        let mut s: String = column_letters_string(n / 26 - 1);
        s.append("ABCDEFGHIJKLMNOPQRSTUVWXYZ".substring_char(d, d + 1));
        assert(s@ =~= column_letters(n as nat));
        s
    }
}

/// Returns a column's name from its number; see [`spec_column_name`].
pub fn column_name(x: i64) -> (r: String)
    ensures
        r@ == spec_column_name(x as int),
{
    if x >= 0 {
        column_letters_string(x as u64)
    } else {
        proof {
            reveal_strlit("n");
        }
        let mirrored: i64 = -(x + 1);
        let mut r: String = "n".to_owned();
        r.append(column_letters_string(mirrored as u64).as_str());
        assert(r@ =~= seq!['n'] + column_letters((-(x + 1)) as nat));
        r
    }
}

} // verus!

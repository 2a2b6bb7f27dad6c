//! Text that both connectors build: decimal numbers, and the strings that a C
//! interface can take.

use vstd::prelude::*;
use vstd::string::*;

verus! {

/// The character of a decimal digit.
pub open spec fn digit_char(d: nat) -> char
    recommends
        d < 10,
{
    ('0' as u32 + d as u32) as char
}

/// The decimal numeral of `n`, without leading zeros.
pub open spec fn decimal_view(n: nat) -> Seq<char>
    decreases n,
{
    if n < 10 {
        seq![digit_char(n)]
    } else {
        decimal_view(n / 10).push(digit_char(n % 10))
    }
}

/// The decimal numeral of a signed number, with `-` in front of a negative one.
pub open spec fn signed_decimal_view(n: int) -> Seq<char> {
    if n < 0 {
        seq!['-'] + decimal_view((-n) as nat)
    } else {
        decimal_view(n as nat)
    }
}

fn digit_text(d: u64) -> (s: &'static str)
    requires
        d < 10,
    ensures
        s@ == seq![digit_char(d as nat)],
{
    proof {
        reveal_strlit("0");
        reveal_strlit("1");
        reveal_strlit("2");
        reveal_strlit("3");
        reveal_strlit("4");
        reveal_strlit("5");
        reveal_strlit("6");
        reveal_strlit("7");
        reveal_strlit("8");
        reveal_strlit("9");
    }
    match d {
        0 => "0",
        1 => "1",
        2 => "2",
        3 => "3",
        4 => "4",
        5 => "5",
        6 => "6",
        7 => "7",
        8 => "8",
        _ => "9",
    }
}

/// Writes `n` in decimal.
pub fn decimal(n: u64) -> (s: String)
    ensures
        s@ == decimal_view(n as nat),
    decreases n,
{
    if n < 10 {
        digit_text(n).to_string()
    } else {
        let mut s = decimal(n / 10);
        s.append(digit_text(n % 10));
        s
    }
}

/// Writes a signed number in decimal.
pub fn signed_decimal(n: i32) -> (s: String)
    ensures
        s@ == signed_decimal_view(n as int),
{
    if n < 0 {
        proof {
            reveal_strlit("-");
        }
        let magnitude: u64 = (-(n as i64)) as u64;
        let s = "-".to_string().concat(decimal(magnitude).as_str());
        assert("-"@ =~= seq!['-']);
        s
    } else {
        decimal(n as u64)
    }
}

/// Whether a string has no NUL character, so that it can be handed to a C
/// interface as a NUL-terminated string.
pub open spec fn nul_free(s: Seq<char>) -> bool {
    forall|i: int| 0 <= i < s.len() ==> s[i] != '\0'
}

/// Tests whether a string has no NUL character.
pub fn is_nul_free(s: &str) -> (free: bool)
    ensures
        free == nul_free(s@),
{
    for c in iter: s.chars()
        invariant
            iter.seq() == s@,
            forall|j: int| 0 <= j < iter.index() ==> s@[j] != '\0',
    {
        if c == '\0' {
            return false;
        }
    }
    true
}

/// The number that a decimal numeral stands for.
pub open spec fn numeral_value(s: Seq<char>) -> int
    decreases s.len(),
{
    if s.len() == 0 {
        0
    } else {
        numeral_value(s.drop_last()) * 10 + (s.last() as int - '0' as int)
    }
}

/// A number can be read back from its numeral, so that no two numbers share one.
pub proof fn law_decimal_reads_back(n: nat)
    ensures
        numeral_value(decimal_view(n)) == n,
    decreases n,
{
    if n < 10 {
        assert(decimal_view(n).drop_last() =~= Seq::empty());
        assert(numeral_value(Seq::empty()) == 0);
    } else {
        law_decimal_reads_back(n / 10);
        assert(decimal_view(n).drop_last() =~= decimal_view(n / 10));
    }
}

/// Whether `s` writes `n` in decimal: digits alone, no zero in front of another
/// digit, and together they come to `n`.
pub open spec fn is_numeral_of(s: Seq<char>, n: int) -> bool {
    &&& s.len() > 0
    &&& forall|i: int| 0 <= i < s.len() ==> '0' as int <= #[trigger] s[i] as int <= '9' as int
    &&& s[0] == '0' ==> s.len() == 1
    &&& numeral_value(s) == n
}

/// A number is written with digits alone, without leading zeros, and can be read
/// back.
pub proof fn law_decimal_is_a_numeral(n: nat)
    ensures
        is_numeral_of(decimal_view(n), n as int),
        n > 0 ==> decimal_view(n)[0] != '0',
    decreases n,
{
    law_decimal_reads_back(n);
    if n >= 10 {
        law_decimal_is_a_numeral(n / 10);
        let front = decimal_view(n / 10);
        assert(decimal_view(n)[0] == front[0]);
        assert forall|i: int| 0 <= i < decimal_view(n).len() implies '0' as int
            <= #[trigger] decimal_view(n)[i] as int <= '9' as int by {
            if i < front.len() {
                assert(decimal_view(n)[i] == front[i]);
            }
        }
    }
}

/// A negative number is written as a minus sign and its magnitude, any other as its
/// magnitude alone.
pub proof fn law_signed_decimal_is_a_numeral(n: int)
    ensures
        n >= 0 ==> is_numeral_of(signed_decimal_view(n), n),
        n < 0 ==> {
            &&& signed_decimal_view(n).len() > 0
            &&& signed_decimal_view(n)[0] == '-'
            &&& is_numeral_of(signed_decimal_view(n).skip(1), -n)
        },
{
    if n < 0 {
        law_decimal_is_a_numeral((-n) as nat);
        assert(signed_decimal_view(n).skip(1) =~= decimal_view((-n) as nat));
    } else {
        law_decimal_is_a_numeral(n as nat);
    }
}

/// A string can be handed to a C interface exactly where no character of it is
/// number zero.
pub proof fn law_nul_is_character_zero(s: Seq<char>)
    ensures
        nul_free(s) <==> forall|i: int| 0 <= i < s.len() ==> #[trigger] s[i] as int != 0,
{
    if nul_free(s) {
        assert forall|i: int| 0 <= i < s.len() implies #[trigger] s[i] as int != 0 by {
            assert(s[i] != '\0');
        }
    }
}

} // verus!

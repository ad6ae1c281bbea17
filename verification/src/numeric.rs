//! Decimal numerals: recognising process-id names and credential
//! tokens, and rendering an id back to decimal text.

use vstd::prelude::*;

verus! {

/// A decimal digit character.
pub open spec fn is_dec_digit(c: char) -> bool {
    '0' <= c && c <= '9'
}

/// Numeric value of a single digit character.
pub open spec fn digit_val(c: char) -> nat
    recommends
        is_dec_digit(c),
{
    (c as u32 - '0' as u32) as nat
}

/// Every character of `s` is a decimal digit.
pub open spec fn all_dec_digits(s: Seq<char>) -> bool {
    forall|i: int| 0 <= i < s.len() ==> is_dec_digit(#[trigger] s[i])
}

/// Numeric value of a digit string, most significant digit first.
pub open spec fn dec_value(s: Seq<char>) -> nat
    decreases s.len(),
{
    if s.len() == 0 {
        0
    } else {
        dec_value(s.drop_last()) * 10 + digit_val(s.last())
    }
}

/// A canonical decimal numeral: nonempty, digits only, and no leading
/// zero (except for the numeral `0` itself).
pub open spec fn is_canonical_dec(s: Seq<char>) -> bool {
    &&& s.len() > 0
    &&& all_dec_digits(s)
    &&& s.len() > 1 ==> s[0] != '0'
}

/// On an all-digit string, the value of a prefix never exceeds the
/// value of the whole string.
proof fn lemma_dec_value_prefix_le(s: Seq<char>, i: int)
    requires
        0 <= i <= s.len(),
        all_dec_digits(s),
    ensures
        dec_value(s.take(i)) <= dec_value(s),
    decreases s.len() - i,
{
    if i == s.len() {
        assert(s.take(i) =~= s);
    } else {
        let t = s.drop_last();
        assert(s.take(i) =~= t.take(i));
        lemma_dec_value_prefix_le(t, i);
    }
}

/// Unfolding `dec_value` one step at a prefix boundary.
proof fn lemma_dec_value_step(s: Seq<char>, i: int)
    requires
        0 <= i < s.len(),
    ensures
        dec_value(s.take(i + 1)) == dec_value(s.take(i)) * 10 + digit_val(s[i]),
{
    assert(s.take(i + 1).drop_last() =~= s.take(i));
    assert(s.take(i + 1).last() == s[i]);
}

/// Recognises a directory-entry name as a process id: accepted exactly
/// when the name is a canonical decimal numeral whose value fits in
/// `u64`. Names with leading zeros, signs, or any non-digit content
/// are rejected.
pub fn parse_pid(name: &str) -> (r: Option<u64>)
    ensures
        match r {
            Some(v) => is_canonical_dec(name@) && v == dec_value(name@),
            None => !(is_canonical_dec(name@) && dec_value(name@) <= u64::MAX),
        },
{
    let n = name.unicode_len();
    if n == 0 {
        return None;
    }
    if n > 1 && name.get_char(0) == '0' {
        return None;
    }
    let mut i: usize = 0;
    let mut acc: u64 = 0;
    while i < n
        invariant
            n == name@.len(),
            0 < n <= usize::MAX,
            0 <= i <= n,
            forall|j: int| 0 <= j < i ==> is_dec_digit(#[trigger] name@[j]),
            acc == dec_value(name@.take(i as int)),
            n > 1 ==> name@[0] != '0',
        decreases n - i,
    {
        let c = name.get_char(i);
        if c < '0' || c > '9' {
            return None;
        }
        let d: u32 = (c as u32) - ('0' as u32);
        let wide: u128 = (acc as u128) * 10 + (d as u128);
        proof {
            lemma_dec_value_step(name@, i as int);
        }
        if wide > u64::MAX as u128 {
            proof {
                if is_canonical_dec(name@) {
                    lemma_dec_value_prefix_le(name@, i as int + 1);
                }
            }
            return None;
        }
        acc = wide as u64;
        i = i + 1;
    }
    proof {
        assert(name@.take(n as int) =~= name@);
    }
    Some(acc)
}

/// Recognises a credential token: accepted exactly when the token is
/// nonempty, all digits, and its value fits in `u32`. Leading zeros
/// are tolerated here, matching the tolerant credential-field policy.
pub fn parse_u32_digits(tok: &str) -> (r: Option<u32>)
    ensures
        match r {
            Some(v) => tok@.len() > 0 && all_dec_digits(tok@) && v == dec_value(tok@),
            None => !(tok@.len() > 0 && all_dec_digits(tok@) && dec_value(tok@) <= u32::MAX),
        },
{
    let n = tok.unicode_len();
    if n == 0 {
        return None;
    }
    let mut i: usize = 0;
    let mut acc: u32 = 0;
    while i < n
        invariant
            n == tok@.len(),
            0 < n <= usize::MAX,
            0 <= i <= n,
            forall|j: int| 0 <= j < i ==> is_dec_digit(#[trigger] tok@[j]),
            acc == dec_value(tok@.take(i as int)),
        decreases n - i,
    {
        let c = tok.get_char(i);
        if c < '0' || c > '9' {
            return None;
        }
        let d: u32 = (c as u32) - ('0' as u32);
        let wide: u64 = (acc as u64) * 10 + (d as u64);
        proof {
            lemma_dec_value_step(tok@, i as int);
        }
        if wide > u32::MAX as u64 {
            proof {
                if all_dec_digits(tok@) {
                    lemma_dec_value_prefix_le(tok@, i as int + 1);
                }
            }
            return None;
        }
        acc = wide as u32;
        i = i + 1;
    }
    proof {
        assert(tok@.take(n as int) =~= tok@);
    }
    Some(acc)
}

/// The digit character for a value below ten.
pub open spec fn digit_char(n: nat) -> char
    recommends
        n < 10,
{
    if n == 0 {
        '0'
    } else if n == 1 {
        '1'
    } else if n == 2 {
        '2'
    } else if n == 3 {
        '3'
    } else if n == 4 {
        '4'
    } else if n == 5 {
        '5'
    } else if n == 6 {
        '6'
    } else if n == 7 {
        '7'
    } else if n == 8 {
        '8'
    } else {
        '9'
    }
}

/// Canonical decimal rendering of a natural number.
pub open spec fn dec_str(n: nat) -> Seq<char>
    decreases n,
{
    if n < 10 {
        seq![digit_char(n)]
    } else {
        dec_str(n / 10).push(digit_char(n % 10))
    }
}

/// The one-character string for a digit value.
fn digit_str(d: u32) -> (s: &'static str)
    requires
        d < 10,
    ensures
        s@ == seq![digit_char(d as nat)],
{
    if d == 0 {
        proof {
            reveal_strlit("0");
            assert("0"@ =~= seq![digit_char(0)]);
        }
        "0"
    } else if d == 1 {
        proof {
            reveal_strlit("1");
            assert("1"@ =~= seq![digit_char(1)]);
        }
        "1"
    } else if d == 2 {
        proof {
            reveal_strlit("2");
            assert("2"@ =~= seq![digit_char(2)]);
        }
        "2"
    } else if d == 3 {
        proof {
            reveal_strlit("3");
            assert("3"@ =~= seq![digit_char(3)]);
        }
        "3"
    } else if d == 4 {
        proof {
            reveal_strlit("4");
            assert("4"@ =~= seq![digit_char(4)]);
        }
        "4"
    } else if d == 5 {
        proof {
            reveal_strlit("5");
            assert("5"@ =~= seq![digit_char(5)]);
        }
        "5"
    } else if d == 6 {
        proof {
            reveal_strlit("6");
            assert("6"@ =~= seq![digit_char(6)]);
        }
        "6"
    } else if d == 7 {
        proof {
            reveal_strlit("7");
            assert("7"@ =~= seq![digit_char(7)]);
        }
        "7"
    } else if d == 8 {
        proof {
            reveal_strlit("8");
            assert("8"@ =~= seq![digit_char(8)]);
        }
        "8"
    } else {
        proof {
            reveal_strlit("9");
            assert("9"@ =~= seq![digit_char(9)]);
        }
        "9"
    }
}

/// Renders an id as decimal text; used as the display placeholder for
/// ids the identity database does not know.
pub fn u32_to_dec(x: u32) -> (s: String)
    ensures
        s@ == dec_str(x as nat),
    decreases x,
{
    if x < 10 {
        let c = digit_str(x);
        c.to_owned()
    } else {
        proof {
            assert(x / 10 < x) by (nonlinear_arith)
                requires
                    x >= 10,
            ;
        }
        let mut s = u32_to_dec(x / 10);
        let c = digit_str(x % 10);
        s.append(c);
        proof {
            assert(s@ =~= dec_str(x as nat));
        }
        s
    }
}

} // verus!

use vstd::prelude::*;
use vstd::string::StringExecFns;
use vstd::std_specs::iter::IteratorSpec;

verus! {

/// The character of a decimal digit.
pub open spec fn digit_char(d: nat) -> char {
    (48 + d) as char
}

/// The decimal digits of `n`, most significant first, with no leading zeros.
pub open spec fn decimal_digits(n: nat) -> Seq<char>
    decreases n,
{
    if n < 10 {
        seq![digit_char(n)]
    } else {
        decimal_digits(n / 10).push(digit_char(n % 10))
    }
}

/// An integer written in decimal, with a leading `-` when it is negative.
pub open spec fn decimal(i: int) -> Seq<char> {
    if i < 0 {
        seq!['-'] + decimal_digits((-i) as nat)
    } else {
        decimal_digits(i as nat)
    }
}

/// Appends the character of the decimal digit `d`.
fn push_digit(s: &mut String, d: u64)
    requires
        d < 10,
    ensures
        final(s)@ == old(s)@.push(digit_char(d as nat)),
{
    match d {
        0 => {
            proof {
                reveal_strlit("0");
            }
            s.append("0");
        },
        1 => {
            proof {
                reveal_strlit("1");
            }
            s.append("1");
        },
        2 => {
            proof {
                reveal_strlit("2");
            }
            s.append("2");
        },
        3 => {
            proof {
                reveal_strlit("3");
            }
            s.append("3");
        },
        4 => {
            proof {
                reveal_strlit("4");
            }
            s.append("4");
        },
        5 => {
            proof {
                reveal_strlit("5");
            }
            s.append("5");
        },
        6 => {
            proof {
                reveal_strlit("6");
            }
            s.append("6");
        },
        7 => {
            proof {
                reveal_strlit("7");
            }
            s.append("7");
        },
        8 => {
            proof {
                reveal_strlit("8");
            }
            s.append("8");
        },
        _ => {
            proof {
                reveal_strlit("9");
            }
            s.append("9");
        },
    }
}

fn push_digits(s: &mut String, n: u64)
    ensures
        final(s)@ == old(s)@ + decimal_digits(n as nat),
    decreases n,
{
    if n >= 10 {
        push_digits(s, n / 10);
    }
    push_digit(s, n % 10);
    proof {
        if n < 10 {
            assert(decimal_digits(n as nat) == seq![digit_char(n as nat)]);
        }
    }
}

/// Appends `i` written in decimal.
pub fn push_decimal(s: &mut String, i: i64)
    ensures
        final(s)@ == old(s)@ + decimal(i as int),
{
    if i < 0 {
        proof {
            reveal_strlit("-");
        }
        s.append("-");
        let magnitude: u64 = (0i128 - (i as i128)) as u64;
        push_digits(s, magnitude);
        assert(final(s)@ == old(s)@ + decimal(i as int));
    } else {
        push_digits(s, i as u64);
    }
}

/// The characters of a string.
pub fn str_chars(s: &str) -> (v: Vec<char>)
    ensures
        v@ == s@,
{
    let mut v: Vec<char> = Vec::new();
    for c in it: s.chars()
        invariant
            it.seq() == s@,
            v@ == s@.take(it.index()),
    {
        v.push(c);
        proof {
            assert(s@.take(it.index() + 1) == s@.take(it.index()).push(c));
        }
    }
    proof {
        assert(s@.take(s@.len() as int) == s@);
    }
    v
}

/// Whether the first `n` characters of `v` are exactly `w`.
pub fn prefix_is(v: &Vec<char>, n: usize, w: &Vec<char>) -> (same: bool)
    requires
        n <= v@.len(),
    ensures
        same == (v@.take(n as int) == w@),
{
    if n != w.len() {
        assert(v@.take(n as int).len() != w@.len());
        return false;
    }
    let mut j: usize = 0;
    while j < n
        invariant
            n == w@.len(),
            n <= v@.len(),
            j <= n,
            forall|a: int| 0 <= a < j ==> v@[a] == w@[a],
        decreases n - j,
    {
        if v[j] != w[j] {
            assert(v@.take(n as int)[j as int] != w@[j as int]);
            return false;
        }
        j = j + 1;
    }
    assert(v@.take(n as int) =~= w@);
    true
}

/// Whether the first `n` characters of `v` spell the string `lit`.
pub fn prefix_is_str(v: &Vec<char>, n: usize, lit: &str) -> (same: bool)
    requires
        n <= v@.len(),
    ensures
        same == (v@.take(n as int) == lit@),
{
    let w = str_chars(lit);
    prefix_is(v, n, &w)
}

} // verus!

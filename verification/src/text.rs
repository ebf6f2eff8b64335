//! Text building blocks for the monitor's reports: decimal rendering of line
//! numbers and substring search over report text.

use vstd::prelude::*;
use vstd::string::StrSliceExecFns;
use vstd::string::StringExecFns;

verus! {

/// The decimal digit character for a value below ten.
pub open spec fn digit_char(d: int) -> char {
    if d == 0 {
        '0'
    } else if d == 1 {
        '1'
    } else if d == 2 {
        '2'
    } else if d == 3 {
        '3'
    } else if d == 4 {
        '4'
    } else if d == 5 {
        '5'
    } else if d == 6 {
        '6'
    } else if d == 7 {
        '7'
    } else if d == 8 {
        '8'
    } else {
        '9'
    }
}

/// The decimal representation of a natural number, without sign or padding.
pub open spec fn dec_digits(n: nat) -> Seq<char>
    decreases n,
{
    if n < 10 {
        seq![digit_char(n as int)]
    } else {
        dec_digits(n / 10).push(digit_char((n % 10) as int))
    }
}

/// Whether a character is a decimal digit.
pub open spec fn is_digit(c: char) -> bool {
    exists|d: int| 0 <= d < 10 && c == digit_char(d)
}

/// Every character of a decimal representation is a digit.
pub proof fn lemma_dec_digits_are_digits(n: nat)
    ensures
        forall|k: int| 0 <= k < dec_digits(n).len() ==> is_digit(#[trigger] dec_digits(n)[k]),
    decreases n,
{
    if n < 10 {
        assert(is_digit(digit_char(n as int)));
    } else {
        lemma_dec_digits_are_digits(n / 10);
        assert(is_digit(digit_char((n % 10) as int)));
        assert forall|k: int| 0 <= k < dec_digits(n).len() implies is_digit(
            #[trigger] dec_digits(n)[k],
        ) by {
            if k < dec_digits(n / 10).len() {
                assert(dec_digits(n)[k] == dec_digits(n / 10)[k]);
            } else {
                assert(dec_digits(n)[k] == digit_char((n % 10) as int));
            }
        }
    }
}

fn digit_str(d: usize) -> (r: &'static str)
    requires
        d < 10,
    ensures
        r@ == seq![digit_char(d as int)],
{
    let r: &'static str = match d {
        0 => "0",
        1 => "1",
        2 => "2",
        3 => "3",
        4 => "4",
        5 => "5",
        6 => "6",
        7 => "7",
        8 => "8",
        _ => "9",
    };
    proof {
        reveal_strlit("0");
        reveal_strlit("1");
        reveal_strlit("2");
        reveal_strlit("3");
        reveal_strlit("4");
        reveal_strlit("5");
        reveal_strlit("6");
        reveal_strlit("7");
        reveal_strlit("8");
        reveal_strlit("9");
        assert(r@ =~= seq![digit_char(d as int)]);
    }
    r
}

/// Renders a number as its decimal digit string, as a report line index.
pub fn usize_to_string(n: usize) -> (r: String)
    ensures
        r@ == dec_digits(n as nat),
    decreases n,
{
    if n < 10 {
        String::from_str(digit_str(n))
    } else {
        let prefix = usize_to_string(n / 10);
        let r = prefix.concat(digit_str(n % 10));
        proof {
            assert(r@ =~= dec_digits(n as nat));
        }
        r
    }
}

/// The pattern occurs in `s` starting at position `i`.
pub open spec fn contains_at(s: Seq<char>, pat: Seq<char>, i: int) -> bool {
    0 <= i && i + pat.len() <= s.len() && s.subrange(i, i + pat.len() as int) == pat
}

/// The pattern occurs somewhere in `s`.
pub open spec fn seq_contains(s: Seq<char>, pat: Seq<char>) -> bool {
    exists|i: int| contains_at(s, pat, i)
}

/// An occurrence in the left part survives concatenation.
pub proof fn lemma_contains_prefix(a: Seq<char>, b: Seq<char>, p: Seq<char>)
    requires
        seq_contains(a, p),
    ensures
        seq_contains(a + b, p),
{
    let i = choose|i: int| contains_at(a, p, i);
    assert((a + b).subrange(i, i + p.len() as int) =~= a.subrange(i, i + p.len() as int));
    assert(contains_at(a + b, p, i));
}

/// An occurrence in the right part survives concatenation.
pub proof fn lemma_contains_suffix(a: Seq<char>, b: Seq<char>, p: Seq<char>)
    requires
        seq_contains(b, p),
    ensures
        seq_contains(a + b, p),
{
    let i = choose|i: int| contains_at(b, p, i);
    assert((a + b).subrange(a.len() + i, a.len() + i + p.len() as int) =~= b.subrange(
        i,
        i + p.len() as int,
    ));
    assert(contains_at(a + b, p, a.len() + i));
}

/// A pattern free of some separator character cannot straddle it: an
/// occurrence in `a + [c] + b` lies wholly in `a` or wholly in `b`.
pub proof fn lemma_contains_around_char(a: Seq<char>, c: char, b: Seq<char>, p: Seq<char>)
    requires
        forall|k: int| 0 <= k < p.len() ==> p[k] != c,
        p.len() > 0,
        seq_contains(a + seq![c] + b, p),
    ensures
        seq_contains(a, p) || seq_contains(b, p),
{
    let s = a + seq![c] + b;
    let i = choose|i: int| contains_at(s, p, i);
    let n = a.len() as int;
    if i + p.len() <= n {
        assert(a.subrange(i, i + p.len() as int) =~= s.subrange(i, i + p.len() as int));
        assert(contains_at(a, p, i));
    } else if i > n {
        let j = i - n - 1;
        assert(b.subrange(j, j + p.len() as int) =~= s.subrange(i, i + p.len() as int)) by {
            assert forall|k: int| 0 <= k < p.len() implies #[trigger] b.subrange(
                j,
                j + p.len() as int,
            )[k] == s.subrange(i, i + p.len() as int)[k] by {
                assert(b[j + k] == s[i + k]);
            }
        }
        assert(contains_at(b, p, j));
    } else {
        assert(i <= n < i + p.len());
        assert(s.subrange(i, i + p.len() as int)[n - i] == s[n]);
        assert(s[n] == c);
        assert(p[n - i] == c);
        assert(false);
    }
}

fn match_at(s: &str, pat: &str, i: usize) -> (r: bool)
    requires
        i + pat@.len() <= s@.len(),
    ensures
        r == contains_at(s@, pat@, i as int),
{
    let n = s.unicode_len();
    let m = pat.unicode_len();
    let mut k: usize = 0;
    while k < m
        invariant
            n == s@.len(),
            m == pat@.len(),
            i + m <= s@.len(),
            0 <= k <= m,
            forall|l: int| 0 <= l < k ==> s@[i + l] == pat@[l],
        decreases m - k,
    {
        if s.get_char(i + k) != pat.get_char(k) {
            proof {
                assert(!contains_at(s@, pat@, i as int)) by {
                    if s@.subrange(i as int, i + m as int) == pat@ {
                        assert(s@.subrange(i as int, i + m as int)[k as int] == s@[i + k]);
                    }
                }
            }
            return false;
        }
        k += 1;
    }
    proof {
        assert(s@.subrange(i as int, i + m as int) =~= pat@);
    }
    true
}

/// Whether `pat` occurs as a contiguous substring of `s`.
pub fn str_contains(s: &str, pat: &str) -> (r: bool)
    ensures
        r == seq_contains(s@, pat@),
{
    let n = s.unicode_len();
    let m = pat.unicode_len();
    if m > n {
        proof {
            assert(forall|i: int| !contains_at(s@, pat@, i));
        }
        return false;
    }
    if m == 0 {
        proof {
            assert(s@.subrange(0, 0) =~= pat@);
            assert(contains_at(s@, pat@, 0));
        }
        return true;
    }
    let bound = n - m;
    let mut i: usize = 0;
    while i <= bound
        invariant
            n == s@.len(),
            m == pat@.len(),
            1 <= m <= n,
            bound == n - m,
            0 <= i <= bound + 1,
            forall|j: int| 0 <= j < i ==> !contains_at(s@, pat@, j),
        decreases bound + 1 - i,
    {
        if match_at(s, pat, i) {
            return true;
        }
        i += 1;
    }
    proof {
        assert forall|j: int| !contains_at(s@, pat@, j) by {
            if contains_at(s@, pat@, j) {
                assert(0 <= j < i);
            }
        }
    }
    false
}

} // verus!

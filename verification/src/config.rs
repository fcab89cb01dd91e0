//! Run configuration: sitemap path, output path, and the maximum number of
//! articles to fetch, taken from the argument list.

use vstd::prelude::*;
use crate::chars::str_chars;

verus! {

/// An ASCII decimal digit.
pub open spec fn is_digit(c: char) -> bool {
    48 <= c as u32 && c as u32 <= 57
}

pub open spec fn digit_val(c: char) -> nat {
    (c as u32 - 48) as nat
}

/// Value of a digit string, most significant digit first.
pub open spec fn digits_value(s: Seq<char>) -> nat
    decreases s.len(),
{
    if s.len() == 0 {
        0
    } else {
        digits_value(s.drop_last()) * 10 + digit_val(s.last())
    }
}

/// The digit part of a count string: what follows an optional leading `'+'`.
pub open spec fn count_digits(s: Seq<char>) -> Seq<char> {
    if s.len() > 0 && s[0] == '+' {
        s.skip(1)
    } else {
        s
    }
}

/// The strings accepted as a count: an optional leading `'+'`, then one or
/// more decimal digits.
pub open spec fn is_count_str(s: Seq<char>) -> bool {
    let d = count_digits(s);
    d.len() > 0 && forall|i: int| 0 <= i < d.len() ==> is_digit(#[trigger] d[i])
}

/// The numeric value of a count string.
pub open spec fn count_value(s: Seq<char>) -> nat {
    digits_value(count_digits(s))
}

proof fn lemma_digits_value_prefix_le(s: Seq<char>, j: int)
    requires
        0 <= j <= s.len(),
    ensures
        digits_value(s.take(j)) <= digits_value(s),
    decreases s.len() - j,
{
    if j == s.len() {
        assert(s.take(j) =~= s);
    } else {
        assert(s.take(j + 1).drop_last() =~= s.take(j));
        assert(s.take(j + 1).last() == s[j]);
        lemma_digits_value_prefix_le(s, j + 1);
    }
}

/// Parses a count string. Returns its value when the string is an optional
/// `'+'` followed by one or more decimal digits and the value fits the
/// machine word; returns nothing otherwise.
pub fn parse_count(s: &str) -> (r: Option<usize>)
    ensures
        match r {
            Some(n) => is_count_str(s@) && n == count_value(s@),
            None => !(is_count_str(s@) && count_value(s@) <= usize::MAX),
        },
{
    let cs = str_chars(s);
    let mut i: usize = 0;
    if cs.len() > 0 && cs[0] == '+' {
        i = 1;
    }
    let ghost d = count_digits(s@);
    proof {
        assert(d =~= s@.skip(i as int));
    }
    if i >= cs.len() {
        return None;
    }
    let mut acc: usize = 0;
    let mut j: usize = i;
    proof {
        assert(d.take(0) =~= Seq::<char>::empty());
    }
    while j < cs.len()
        invariant
            cs@ == s@,
            d == count_digits(s@),
            d =~= s@.skip(i as int),
            i <= j <= cs@.len(),
            forall|t: int| 0 <= t < j - i ==> is_digit(#[trigger] d[t]),
            acc == digits_value(d.take(j - i)),
        decreases cs@.len() - j,
    {
        let c = cs[j];
        assert(d[j - i] == s@[j as int]);
        let u = c as u32;
        if !(48 <= u && u <= 57) {
            return None;
        }
        let dv = (u - 48) as usize;
        assert(dv == digit_val(d[j - i]));
        proof {
            assert(d.take(j - i + 1).drop_last() =~= d.take(j - i));
            assert(d.take(j - i + 1).last() == d[j - i]);
        }
        if acc > (usize::MAX - dv) / 10 {
            proof {
                assert(acc * 10 + dv > usize::MAX) by {
                    let q = (usize::MAX - dv) as int / 10;
                    assert(acc >= q + 1);
                    assert(acc * 10 >= (q + 1) * 10);
                    assert(q * 10 + 10 > usize::MAX - dv);
                }
                assert(digits_value(d.take(j - i + 1)) > usize::MAX);
                lemma_digits_value_prefix_le(d, j - i + 1);
            }
            return None;
        }
        proof {
            assert(acc * 10 + dv <= usize::MAX) by {
                let q = (usize::MAX - dv) as int / 10;
                assert(acc <= q);
                assert(acc * 10 <= q * 10);
                assert(q * 10 <= usize::MAX - dv);
            }
        }
        acc = acc * 10 + dv;
        j = j + 1;
    }
    proof {
        assert(d.take(j - i) =~= d);
    }
    Some(acc)
}

/// The run parameters: where the sitemap is read from, where the output is
/// written, and how many articles are fetched at most.
pub struct Config {
    pub sitemap: String,
    pub output_path: String,
    pub n: usize,
}

impl Config {
    /// Builds the configuration from the argument list: after the program
    /// name come the sitemap path, the output path, and the maximum
    /// article count. The count must be numeric and fit the machine word;
    /// a caller with an unchecked string validates it with `parse_count`
    /// first.
    pub fn new(args: &Vec<String>) -> (c: Config)
        requires
            args@.len() >= 4,
            is_count_str(args@[3]@),
            count_value(args@[3]@) <= usize::MAX,
        ensures
            c.sitemap@ == args@[1]@,
            c.output_path@ == args@[2]@,
            c.n == count_value(args@[3]@),
    {
        let sitemap = args[1].clone();
        let output_path = args[2].clone();
        let n = match parse_count(args[3].as_str()) {
            Some(n) => n,
            None => {
                proof {
                    assert(false);
                }
                0
            },
        };
        Config { sitemap, output_path, n }
    }
}

} // verus!

use vstd::prelude::*;

use vstd::string::StrSliceExecFns;

verus! {

pub open spec fn is_digit(c: char) -> bool {
    '0' <= c <= '9'
}

pub open spec fn all_digits(s: Seq<char>) -> bool {
    forall|k: int| 0 <= k < s.len() ==> is_digit(#[trigger] s[k])
}

/// The number that a string of decimal digits denotes.
pub open spec fn digits_value(s: Seq<char>) -> int
    decreases s.len(),
{
    if s.len() == 0 {
        0
    } else {
        10 * digits_value(s.drop_last()) + (s.last() as int - '0' as int)
    }
}

pub open spec fn has_sign(s: Seq<char>) -> bool {
    s.len() > 0 && (s[0] == '-' || s[0] == '+')
}

pub open spec fn unsigned_part(s: Seq<char>) -> Seq<char> {
    if has_sign(s) {
        s.skip(1)
    } else {
        s
    }
}

pub open spec fn signed_value(s: Seq<char>) -> int {
    if s.len() > 0 && s[0] == '-' {
        -digits_value(unsigned_part(s))
    } else {
        digits_value(unsigned_part(s))
    }
}

/// An optional sign followed by one or more decimal digits, when the value
/// fits in an `i64`.
pub open spec fn parse_integer(s: Seq<char>) -> Option<i64> {
    let body = unsigned_part(s);
    if body.len() > 0 && all_digits(body) && i64::MIN <= signed_value(s) <= i64::MAX {
        Some(signed_value(s) as i64)
    } else {
        None
    }
}

proof fn lemma_digits_grow(s: Seq<char>, j: int)
    requires
        all_digits(s),
        0 <= j <= s.len(),
    ensures
        0 <= digits_value(s.take(j)) <= digits_value(s),
    decreases s.len(),
{
    if j < s.len() {
        assert(s.drop_last().take(j) =~= s.take(j));
        assert(all_digits(s.drop_last()));
        assert(is_digit(s[s.len() - 1]));
        lemma_digits_grow(s.drop_last(), j);
    } else {
        assert(s.take(j) =~= s);
        if s.len() > 0 {
            assert(all_digits(s.drop_last()));
            assert(is_digit(s[s.len() - 1]));
            lemma_digits_grow(s.drop_last(), s.len() - 1);
            assert(s.drop_last().take(s.len() - 1) =~= s.drop_last());
        }
    }
}

/// Reads `s` as a whole number; see `parse_integer`.
pub fn parse_int(s: &String) -> (r: Option<i64>)
    ensures
        r == parse_integer(s@),
{
    let t = s.as_str();
    let n = t.unicode_len();
    if n == 0 {
        return None;
    }
    let first = t.get_char(0);
    let neg = first == '-';
    let start: usize = if first == '-' || first == '+' {
        1
    } else {
        0
    };
    let ghost body = unsigned_part(s@);
    proof {
        if start == 1 {
            assert(body =~= s@.subrange(1, n as int));
        } else {
            assert(body =~= s@.subrange(0, n as int));
        }
    }
    if start >= n {
        return None;
    }
    let mut acc: i128 = 0;
    let mut i: usize = start;
    while i < n
        invariant
            start <= i <= n,
            n == s@.len(),
            t@ == s@,
            body == unsigned_part(s@),
            neg == (s@[0] == '-'),
            s@.len() > 0,
            body == s@.subrange(start as int, n as int),
            all_digits(body.take(i - start)),
            acc == digits_value(body.take(i - start)),
            0 <= acc <= 9223372036854775808,
        decreases n - i,
    {
        let c = t.get_char(i);
        proof {
            assert(body.take(i + 1 - start).drop_last() =~= body.take(i - start));
            assert(body.take(i + 1 - start).last() == c);
        }
        if !('0' <= c && c <= '9') {
            proof {
                assert(body[i - start] == s@[i as int]);
                assert(!is_digit(body[i - start]));
                assert(!all_digits(body));
            }
            return None;
        }
        assert(acc * 10 <= 92233720368547758080) by (nonlinear_arith)
            requires
                0 <= acc <= 9223372036854775808,
        ;
        let next = acc * 10 + (c as i128 - '0' as i128);
        if next > 9223372036854775808 {
            proof {
                if all_digits(body) {
                    lemma_digits_grow(body, i + 1 - start);
                }
            }
            return None;
        }
        acc = next;
        i += 1;
    }
    proof {
        assert(body.take(n - start) =~= body);
    }
    if neg {
        Some((0 - acc) as i64)
    } else if acc <= 9223372036854775807 {
        Some(acc as i64)
    } else {
        None
    }
}

} // verus!

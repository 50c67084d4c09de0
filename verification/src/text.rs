//! Names and numbers in text.

use vstd::prelude::*;

verus! {

/// Whether two texts are the same.
pub fn same_text(a: &str, b: &str) -> (r: bool)
    ensures
        r == (a@ == b@),
{
    let n: usize = a.unicode_len();
    if n != b.unicode_len() {
        return false;
    }
    let mut i: usize = 0;
    while i < n
        invariant
            i <= n,
            n == a@.len(),
            n == b@.len(),
            forall|k: int| 0 <= k < i ==> a@[k] == b@[k],
        decreases n - i,
    {
        if a.get_char(i) != b.get_char(i) {
            return false;
        }
        i = i + 1;
    }
    assert(a@ =~= b@);
    true
}

/// Whether a character is a decimal digit.
pub open spec fn is_digit(c: char) -> bool {
    48 <= c as int <= 57
}

/// The number that digits stand for.
pub open spec fn digits_value(s: Seq<char>) -> int
    decreases s.len(),
{
    if s.len() == 0 {
        0
    } else {
        10 * digits_value(s.drop_last()) + (s.last() as int - 48)
    }
}

/// What follows a plus sign, where there is one.
pub open spec fn unsigned_part(s: Seq<char>) -> Seq<char> {
    if s.len() > 0 && s[0] == '+' {
        s.skip(1)
    } else {
        s
    }
}

/// The number that a text stands for: at least one digit, nothing but digits,
/// a plus sign in front at most.
pub open spec fn decimal(s: Seq<char>) -> Option<int> {
    let body = unsigned_part(s);
    if body.len() > 0 && (forall|k: int| 0 <= k < body.len() ==> is_digit(#[trigger] body[k])) {
        Some(digits_value(body))
    } else {
        None
    }
}

/// The number that a text stands for, where it is no more than `max`.
pub open spec fn decimal_up_to(s: Seq<char>, max: int) -> Option<int> {
    match decimal(s) {
        Some(v) => if v <= max {
            Some(v)
        } else {
            None
        },
        None => None,
    }
}

/// Reads a number of at most `max`.
pub fn parse_decimal(s: &str, max: u64) -> (r: Option<u64>)
    ensures
        match r {
            Some(v) => decimal_up_to(s@, max as int) == Some(v as int),
            None => decimal_up_to(s@, max as int) is None,
        },
{
    let n: usize = s.unicode_len();
    let first: usize = if n > 0 && s.get_char(0) == '+' {
        1
    } else {
        0
    };
    let ghost body = unsigned_part(s@);
    if n == first {
        return None;
    }
    let mut value: u64 = 0;
    let mut too_large: bool = false;
    let mut i: usize = first;
    assert(body.take(0) =~= Seq::<char>::empty());
    while i < n
        invariant
            first <= i <= n,
            first <= 1,
            n == s@.len(),
            body == unsigned_part(s@),
            body.len() == n - first,
            forall|k: int| 0 <= k < body.len() ==> body[k] == s@[first + k],
            forall|k: int| 0 <= k < i - first ==> is_digit(#[trigger] body[k]),
            too_large ==> digits_value(body.take(i - first)) > max,
            !too_large ==> value <= max && value == digits_value(body.take(i - first)),
        decreases n - i,
    {
        let c: char = s.get_char(i);
        let code: u32 = c as u32;
        assert(body[i - first] == c);
        if code < 48 || code > 57 {
            assert(!is_digit(body[i - first]));
            return None;
        }
        let d: u32 = code - 48;
        proof {
            let longer = body.take(i - first + 1);
            assert(longer.drop_last() =~= body.take(i - first));
            assert(longer.last() == c);
        }
        if !too_large {
            let next: u128 = 10 * value as u128 + d as u128;
            if next > max as u128 {
                too_large = true;
            } else {
                value = next as u64;
            }
        }
        i = i + 1;
    }
    assert(body.take(n - first) =~= body);
    if too_large {
        None
    } else {
        Some(value)
    }
}

} // verus!

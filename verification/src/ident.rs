//! Identifiers of rooms and participants, and how a room's identifier is
//! read from the text that a client sends.

use crate::vote::{
    all_digits, digit_value, digits_value, is_digit, lemma_digits_value_grows, unsigned_part,
};
use vstd::prelude::*;
use vstd::string::*;

verus! {

/// The texts that name an identifier: an optional plus sign, then one or
/// more decimal digits whose number fits the machine word.
pub open spec fn is_id_text(s: Seq<char>) -> bool {
    let u = unsigned_part(s);
    u.len() > 0 && all_digits(u) && digits_value(u) <= usize::MAX
}

/// The identifier that such a text names.
pub open spec fn id_of_text(s: Seq<char>) -> nat {
    digits_value(unsigned_part(s))
}

/// Reads an identifier from text. Succeeds exactly on the texts that name
/// one, with the number they name.
pub fn parse_id(raw: &str) -> (parsed: Option<usize>)
    ensures
        parsed is Some <==> is_id_text(raw@),
        parsed matches Some(id) ==> id == id_of_text(raw@),
{
    broadcast use is_ascii_spec_bytes;

    let ghost s = raw@;
    let ghost u = unsigned_part(s);
    if !raw.is_ascii() {
        assert(!all_digits(u)) by {
            let i = choose|i: int| 0 <= i < s.len() && !('\0' <= #[trigger] s[i] <= '\u{7f}');
            if i > 0 || u == s {
                assert(u[i - (s.len() - u.len())] == s[i]);
            }
        }
        return None;
    }
    let bytes = raw.as_bytes();
    let n: usize = bytes.len();
    assert(bytes@.len() == s.len());
    assert(forall|i: int| 0 <= i < s.len() ==> bytes@[i] == (#[trigger] s[i]) as u8);
    let start: usize = if n > 0 && bytes[0] == 43 {
        1
    } else {
        0
    };
    assert(u == s.skip(start as int)) by {
        assert(s.skip(0) =~= s);
    }
    if start == n {
        return None;
    }
    let mut value: usize = 0;
    let mut i: usize = start;
    while i < n
        invariant
            start <= i <= n,
            s == raw@,
            u == unsigned_part(s),
            n == s.len(),
            n == bytes@.len(),
            u == s.skip(start as int),
            forall|j: int| 0 <= j < s.len() ==> bytes@[j] == (#[trigger] s[j]) as u8,
            forall|j: int| 0 <= j < s.len() ==> '\0' <= #[trigger] s[j] <= '\u{7f}',
            all_digits(u.take(i - start)),
            value == digits_value(u.take(i - start)),
        decreases n - i,
    {
        let b: u8 = bytes[i];
        let ghost next = u.take(i - start + 1);
        assert(next.drop_last() =~= u.take(i - start));
        assert(next.last() == s[i as int]);
        if b < 48 || b > 57 {
            assert(!is_digit(u[i - start]));
            return None;
        }
        let digit: usize = (b - 48) as usize;
        assert(digit == digit_value(s[i as int]));
        assert(digits_value(next) == value * 10 + digit);
        let grown: Option<usize> = match value.checked_mul(10) {
            Some(tenfold) => tenfold.checked_add(digit),
            None => None,
        };
        match grown {
            Some(sum) => {
                value = sum;
            },
            None => {
                proof {
                    lemma_digits_value_grows(u, i - start + 1);
                }
                return None;
            },
        }
        assert forall|j: int| 0 <= j < next.len() implies is_digit(#[trigger] next[j]) by {
            if j < i - start {
                assert(u.take(i - start)[j] == next[j]);
            }
        }
        i = i + 1;
    }
    assert(u.take(n - start) =~= u);
    Some(value)
}

} // verus!

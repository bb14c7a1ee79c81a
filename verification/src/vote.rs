//! Estimates. A vote is a non-negative decimal numeral of any length, kept
//! in canonical form: the digits before the point without leading zeros and
//! the digits after it without trailing zeros.

use vstd::prelude::*;
use vstd::string::*;

verus! {

/// A decimal digit.
pub open spec fn is_digit(c: char) -> bool {
    '0' <= c && c <= '9'
}

/// Every element is a decimal digit.
pub open spec fn all_digits(s: Seq<char>) -> bool {
    forall|i: int| 0 <= i < s.len() ==> is_digit(#[trigger] s[i])
}

/// Every element is the digit zero.
pub open spec fn all_zeros(s: Seq<char>) -> bool {
    forall|i: int| 0 <= i < s.len() ==> #[trigger] s[i] == '0'
}

/// The number that one decimal digit stands for; zero for any other
/// character.
pub open spec fn digit_value(c: char) -> nat {
    if is_digit(c) {
        (c as int - '0' as int) as nat
    } else {
        0
    }
}

/// The number that a run of decimal digits stands for, most significant
/// digit first.
pub open spec fn digits_value(d: Seq<char>) -> nat
    decreases d.len(),
{
    if d.len() == 0 {
        0
    } else {
        digits_value(d.drop_last()) * 10 + digit_value(d.last())
    }
}

/// The text without the plus sign that may lead it.
pub open spec fn unsigned_part(s: Seq<char>) -> Seq<char> {
    if s.len() > 0 && s[0] == '+' {
        s.skip(1)
    } else {
        s
    }
}

/// The position of the first decimal point of `s`, or its length where it
/// has none.
pub open spec fn first_point(s: Seq<char>) -> int
    decreases s.len(),
{
    if s.len() == 0 || s[0] == '.' {
        0
    } else {
        1 + first_point(s.skip(1))
    }
}

/// What stands before the first decimal point.
pub open spec fn whole_digits(s: Seq<char>) -> Seq<char> {
    let u = unsigned_part(s);
    u.take(first_point(u))
}

/// What stands after the first decimal point.
pub open spec fn fraction_digits(s: Seq<char>) -> Seq<char> {
    let u = unsigned_part(s);
    if first_point(u) < u.len() {
        u.skip(first_point(u) + 1)
    } else {
        Seq::empty()
    }
}

/// The texts that are accepted as a vote: an optional plus sign, then
/// decimal digits with at most one decimal point among them, at least one
/// digit in all. No minus sign, no exponent, no blank, and none of the words
/// that name an infinity or a missing number.
pub open spec fn is_numeral(s: Seq<char>) -> bool {
    &&& all_digits(whole_digits(s))
    &&& all_digits(fraction_digits(s))
    &&& whole_digits(s).len() + fraction_digits(s).len() > 0
}

/// `d` without the zeros that lead it.
pub open spec fn strip_leading_zeros(d: Seq<char>) -> Seq<char>
    decreases d.len(),
{
    if d.len() > 0 && d[0] == '0' {
        strip_leading_zeros(d.skip(1))
    } else {
        d
    }
}

/// `d` without the zeros that end it.
pub open spec fn strip_trailing_zeros(d: Seq<char>) -> Seq<char>
    decreases d.len(),
{
    if d.len() > 0 && d.last() == '0' {
        strip_trailing_zeros(d.drop_last())
    } else {
        d
    }
}

/// The number that a vote stands for, as its canonical digits.
pub struct Estimate {
    /// The digits before the point, most significant first.
    pub whole: Seq<char>,
    /// The digits after the point.
    pub fraction: Seq<char>,
}

impl Estimate {
    /// The number zero.
    pub open spec fn zero() -> Estimate {
        Estimate { whole: Seq::empty(), fraction: Seq::empty() }
    }

    /// The number is exactly zero.
    pub open spec fn is_zero(self) -> bool {
        self.whole.len() == 0 && self.fraction.len() == 0
    }

    /// The number is at least one.
    pub open spec fn at_least_one(self) -> bool {
        self.whole.len() > 0
    }

    /// Digits only, none of them a needless zero.
    pub open spec fn canonical(self) -> bool {
        &&& all_digits(self.whole)
        &&& all_digits(self.fraction)
        &&& self.whole.len() > 0 ==> self.whole[0] != '0'
        &&& self.fraction.len() > 0 ==> self.fraction.last() != '0'
    }

    /// The numeral that is shown for the number: `0` before the point where
    /// the number is below one, and no point where it is whole.
    pub open spec fn text(self) -> Seq<char> {
        let whole = if self.whole.len() == 0 {
            seq!['0']
        } else {
            self.whole
        };
        if self.fraction.len() == 0 {
            whole
        } else {
            whole + seq!['.'] + self.fraction
        }
    }
}

/// The number that an accepted text stands for.
pub open spec fn numeral_value(s: Seq<char>) -> Estimate {
    Estimate {
        whole: strip_leading_zeros(whole_digits(s)),
        fraction: strip_trailing_zeros(fraction_digits(s)),
    }
}

/// The first decimal point is inside the text or at its end, and no point
/// stands before it.
pub proof fn lemma_first_point(s: Seq<char>)
    ensures
        0 <= first_point(s) <= s.len(),
        forall|i: int| 0 <= i < first_point(s) ==> s[i] != '.',
        first_point(s) < s.len() ==> s[first_point(s)] == '.',
    decreases s.len(),
{
    if s.len() == 0 || s[0] == '.' {
    } else {
        let t = s.skip(1);
        lemma_first_point(t);
        assert forall|i: int| 0 <= i < first_point(s) implies s[i] != '.' by {
            if i > 0 {
                assert(t[i - 1] == s[i]);
            }
        }
        assert(first_point(t) < t.len() ==> t[first_point(t)] == s[first_point(s)]);
    }
}

/// A position with no point before it that holds a point, or is the end,
/// is the first point.
pub proof fn lemma_first_point_is(s: Seq<char>, k: int)
    requires
        0 <= k <= s.len(),
        forall|i: int| 0 <= i < k ==> s[i] != '.',
        k < s.len() ==> s[k] == '.',
    ensures
        first_point(s) == k,
{
    lemma_first_point(s);
}

/// Stripping leading zeros drops exactly the zeros before the first other
/// element.
pub proof fn lemma_strip_leading_zeros(d: Seq<char>, j: int)
    requires
        0 <= j <= d.len(),
        forall|i: int| 0 <= i < j ==> d[i] == '0',
        j < d.len() ==> d[j] != '0',
    ensures
        strip_leading_zeros(d) == d.skip(j),
    decreases d.len(),
{
    if j == 0 {
        assert(d.skip(0) =~= d);
    } else {
        let t = d.skip(1);
        assert forall|i: int| 0 <= i < j - 1 implies t[i] == '0' by {
            assert(t[i] == d[i + 1]);
        }
        lemma_strip_leading_zeros(t, j - 1);
        assert(t.skip(j - 1) =~= d.skip(j));
    }
}

/// Stripping trailing zeros keeps exactly what stands before the last run of
/// zeros.
pub proof fn lemma_strip_trailing_zeros(d: Seq<char>, j: int)
    requires
        0 <= j <= d.len(),
        forall|i: int| j <= i < d.len() ==> d[i] == '0',
        j > 0 ==> d[j - 1] != '0',
    ensures
        strip_trailing_zeros(d) == d.take(j),
    decreases d.len(),
{
    if j == d.len() {
        assert(d.take(j) =~= d);
    } else {
        let t = d.drop_last();
        lemma_strip_trailing_zeros(t, j);
        assert(t.take(j) =~= d.take(j));
    }
}

/// The canonical digits of an accepted text are canonical.
pub proof fn lemma_numeral_value_canonical(s: Seq<char>)
    requires
        is_numeral(s),
    ensures
        numeral_value(s).canonical(),
{
    lemma_strip_leading_canonical(whole_digits(s));
    lemma_strip_trailing_canonical(fraction_digits(s));
}

proof fn lemma_strip_leading_canonical(d: Seq<char>)
    requires
        all_digits(d),
    ensures
        all_digits(strip_leading_zeros(d)),
        strip_leading_zeros(d).len() > 0 ==> strip_leading_zeros(d)[0] != '0',
        strip_leading_zeros(d).len() == 0 <==> all_zeros(d),
    decreases d.len(),
{
    if d.len() > 0 && d[0] == '0' {
        let t = d.skip(1);
        assert forall|i: int| 0 <= i < t.len() implies is_digit(#[trigger] t[i]) by {
            assert(t[i] == d[i + 1]);
        }
        lemma_strip_leading_canonical(t);
        if all_zeros(t) {
            assert forall|i: int| 0 <= i < d.len() implies #[trigger] d[i] == '0' by {
                if i > 0 {
                    assert(t[i - 1] == d[i]);
                }
            }
        }
        if all_zeros(d) {
            assert forall|i: int| 0 <= i < t.len() implies #[trigger] t[i] == '0' by {
                assert(t[i] == d[i + 1]);
            }
        }
    } else if d.len() > 0 {
        assert(d[0] != '0');
    }
}

proof fn lemma_strip_trailing_canonical(d: Seq<char>)
    requires
        all_digits(d),
    ensures
        all_digits(strip_trailing_zeros(d)),
        strip_trailing_zeros(d).len() > 0 ==> strip_trailing_zeros(d).last() != '0',
        strip_trailing_zeros(d).len() == 0 <==> all_zeros(d),
    decreases d.len(),
{
    if d.len() > 0 && d.last() == '0' {
        let t = d.drop_last();
        assert forall|i: int| 0 <= i < t.len() implies is_digit(#[trigger] t[i]) by {
            assert(t[i] == d[i]);
        }
        lemma_strip_trailing_canonical(t);
        if all_zeros(t) {
            assert forall|i: int| 0 <= i < d.len() implies #[trigger] d[i] == '0' by {
                if i < t.len() {
                    assert(t[i] == d[i]);
                }
            }
        }
        if all_zeros(d) {
            assert forall|i: int| 0 <= i < t.len() implies #[trigger] t[i] == '0' by {
                assert(t[i] == d[i]);
            }
        }
    } else if d.len() > 0 {
        assert(d[d.len() - 1] != '0');
    }
}

/// A run of digits stands for no less than any of its beginnings.
pub proof fn lemma_digits_value_grows(d: Seq<char>, k: int)
    requires
        0 <= k <= d.len(),
    ensures
        digits_value(d.take(k)) <= digits_value(d),
    decreases d.len() - k,
{
    if k == d.len() {
        assert(d.take(k) =~= d);
    } else {
        lemma_digits_value_grows(d.drop_last(), k);
        assert(d.drop_last().take(k) =~= d.take(k));
    }
}

/// A run of digits stands for zero exactly when every digit is a zero.
pub proof fn lemma_digits_value_zero(d: Seq<char>)
    requires
        all_digits(d),
    ensures
        digits_value(d) == 0 <==> all_zeros(d),
    decreases d.len(),
{
    if d.len() > 0 {
        let front = d.drop_last();
        assert forall|i: int| 0 <= i < front.len() implies is_digit(#[trigger] front[i]) by {
            assert(front[i] == d[i]);
        }
        lemma_digits_value_zero(front);
        assert(is_digit(d[d.len() - 1]));
        if all_zeros(front) && d.last() == '0' {
            assert forall|i: int| 0 <= i < d.len() implies #[trigger] d[i] == '0' by {
                if i < front.len() {
                    assert(front[i] == d[i]);
                }
            }
        }
        if all_zeros(d) {
            assert(d[d.len() - 1] == '0');
            assert forall|i: int| 0 <= i < front.len() implies #[trigger] front[i] == '0' by {
                assert(front[i] == d[i]);
            }
        }
    }
}

/// Zeros in front do not change the number that a run of digits stands for.
pub proof fn lemma_leading_zeros_keep_value(d: Seq<char>)
    ensures
        digits_value(strip_leading_zeros(d)) == digits_value(d),
    decreases d.len(),
{
    if d.len() > 0 && d[0] == '0' {
        let rest = d.skip(1);
        lemma_leading_zeros_keep_value(rest);
        lemma_zero_in_front(rest);
        assert(seq!['0'] + rest =~= d);
    }
}

proof fn lemma_zero_in_front(d: Seq<char>)
    ensures
        digits_value(seq!['0'] + d) == digits_value(d),
    decreases d.len(),
{
    let longer = seq!['0'] + d;
    if d.len() == 0 {
        assert(longer.drop_last() =~= d);
    } else {
        lemma_zero_in_front(d.drop_last());
        assert(longer.drop_last() =~= seq!['0'] + d.drop_last());
        assert(longer.last() == d.last());
    }
}

/// What the canonical digits say of the number: a vote is exactly zero when
/// the digits on both sides of the point stand for zero, and at least one
/// when the digits before the point stand for one or more. The digits that
/// are kept before the point stand for the same number as those of the text.
pub proof fn lemma_vote_number(s: Seq<char>)
    requires
        is_numeral(s),
    ensures
        numeral_value(s).is_zero() <==> digits_value(whole_digits(s)) == 0 && digits_value(
            fraction_digits(s),
        ) == 0,
        numeral_value(s).at_least_one() <==> digits_value(whole_digits(s)) >= 1,
        digits_value(numeral_value(s).whole) == digits_value(whole_digits(s)),
{
    lemma_strip_leading_canonical(whole_digits(s));
    lemma_strip_trailing_canonical(fraction_digits(s));
    lemma_digits_value_zero(whole_digits(s));
    lemma_digits_value_zero(fraction_digits(s));
    lemma_leading_zeros_keep_value(whole_digits(s));
}

/// A vote is exactly zero if and only if every digit of its text is a zero.
pub proof fn lemma_zero_numeral(s: Seq<char>)
    requires
        is_numeral(s),
    ensures
        numeral_value(s).is_zero() <==> all_zeros(whole_digits(s)) && all_zeros(
            fraction_digits(s),
        ),
{
    lemma_strip_leading_canonical(whole_digits(s));
    lemma_strip_trailing_canonical(fraction_digits(s));
}

/// A submitted estimate.
pub struct Vote {
    whole: String,
    fraction: String,
}

impl View for Vote {
    type V = Estimate;

    closed spec fn view(&self) -> Estimate {
        Estimate { whole: self.whole@, fraction: self.fraction@ }
    }
}

/// The byte of a decimal digit.
spec fn is_digit_byte(b: u8) -> bool {
    48 <= b && b <= 57
}

/// The end of the run of digits that starts at `from`.
fn scan_digits(bytes: &[u8], from: usize) -> (to: usize)
    requires
        from <= bytes@.len(),
    ensures
        from <= to <= bytes@.len(),
        forall|i: int| from <= i < to ==> is_digit_byte(#[trigger] bytes@[i]),
        to < bytes@.len() ==> !is_digit_byte(bytes@[to as int]),
{
    let mut to: usize = from;
    while to < bytes.len() && 48 <= bytes[to] && bytes[to] <= 57
        invariant
            from <= to <= bytes@.len(),
            forall|i: int| from <= i < to ==> is_digit_byte(#[trigger] bytes@[i]),
        decreases bytes@.len() - to,
    {
        to = to + 1;
    }
    to
}

/// The end of the run of zeros that starts at `from`, no further than `end`.
fn skip_zeros(bytes: &[u8], from: usize, end: usize) -> (to: usize)
    requires
        from <= end <= bytes@.len(),
    ensures
        from <= to <= end,
        forall|i: int| from <= i < to ==> #[trigger] bytes@[i] == 48,
        to < end ==> bytes@[to as int] != 48,
{
    let mut to: usize = from;
    while to < end && bytes[to] == 48
        invariant
            from <= to <= end <= bytes@.len(),
            forall|i: int| from <= i < to ==> #[trigger] bytes@[i] == 48,
        decreases end - to,
    {
        to = to + 1;
    }
    to
}

/// The start of the run of zeros that ends at `end`, no earlier than `from`.
fn skip_zeros_back(bytes: &[u8], from: usize, end: usize) -> (to: usize)
    requires
        from <= end <= bytes@.len(),
    ensures
        from <= to <= end,
        forall|i: int| to <= i < end ==> #[trigger] bytes@[i] == 48,
        to > from ==> bytes@[to - 1] != 48,
{
    let mut to: usize = end;
    while to > from && bytes[to - 1] == 48
        invariant
            from <= to <= end <= bytes@.len(),
            forall|i: int| to <= i < end ==> #[trigger] bytes@[i] == 48,
        decreases to,
    {
        to = to - 1;
    }
    to
}

/// An accepted text holds nothing but a sign, digits and a point.
pub proof fn lemma_numeral_is_ascii(s: Seq<char>)
    requires
        is_numeral(s),
    ensures
        vstd::utf8::is_ascii_chars(s),
{
    let u = unsigned_part(s);
    let k = first_point(u);
    lemma_first_point(u);
    let off = s.len() - u.len();
    assert forall|i: int| 0 <= i < s.len() implies '\0' <= #[trigger] s[i] <= '\u{7f}' by {
        if i < off {
            assert(s[i] == '+');
        } else {
            let j = i - off;
            assert(u[j] == s[i]);
            if j < k {
                assert(whole_digits(s)[j] == u[j]);
                assert(is_digit(whole_digits(s)[j]));
            } else if j == k {
                assert(u[j] == '.');
            } else {
                assert(fraction_digits(s)[j - k - 1] == u[j]);
                assert(is_digit(fraction_digits(s)[j - k - 1]));
            }
        }
    }
}

/// `bytes` is the text `s`, one byte for each of its characters.
spec fn spells(bytes: Seq<u8>, s: Seq<char>) -> bool {
    &&& bytes.len() == s.len()
    &&& forall|i: int|
        0 <= i < s.len() ==> '\0' <= #[trigger] s[i] <= '\u{7f}' && bytes[i] == s[i] as u8
}

/// Where the parts of a numeral lie in its text: the digits before the point
/// in `start..whole_end`, those after it from `fraction_start` to the end.
struct Parts {
    start: usize,
    whole_end: usize,
    fraction_start: usize,
}

impl Parts {
    spec fn of(self, s: Seq<char>) -> bool {
        &&& self.start <= self.whole_end <= self.fraction_start <= s.len()
        &&& whole_digits(s) == s.subrange(self.start as int, self.whole_end as int)
        &&& fraction_digits(s) == s.subrange(self.fraction_start as int, s.len() as int)
    }
}

/// Finds the parts of a numeral, or finds that the text is none.
fn find_parts(bytes: &[u8], Ghost(s): Ghost<Seq<char>>) -> (found: Option<Parts>)
    requires
        spells(bytes@, s),
    ensures
        found is Some <==> is_numeral(s),
        found matches Some(parts) ==> parts.of(s),
{
    let n: usize = bytes.len();
    let ghost u = unsigned_part(s);
    let start: usize = if n > 0 && bytes[0] == 43 {
        1
    } else {
        0
    };
    assert(u == s.skip(start as int)) by {
        assert(n > 0 ==> bytes@[0] == s[0] as u8);
        assert(s.skip(0) =~= s);
    }
    let whole_end: usize = scan_digits(bytes, start);
    let ghost k = whole_end - start;
    assert forall|i: int| 0 <= i < k implies is_digit(#[trigger] u[i]) by {
        assert(is_digit_byte(bytes@[i + start]));
        assert(bytes@[i + start] == s[i + start] as u8);
    }
    let mut fraction_start: usize = whole_end;
    if whole_end < n {
        assert(u[k] == s[whole_end as int]);
        assert(bytes@[whole_end as int] == s[whole_end as int] as u8);
        if bytes[whole_end] != 46 {
            proof {
                lemma_first_point(u);
                assert(!is_digit(u[k]) && u[k] != '.');
                assert(first_point(u) > k);
                assert(whole_digits(s)[k] == u[k]);
            }
            return None;
        }
        proof {
            lemma_first_point_is(u, k);
        }
        fraction_start = whole_end + 1;
        let fraction_end: usize = scan_digits(bytes, fraction_start);
        assert(fraction_digits(s) =~= s.subrange(fraction_start as int, n as int));
        if fraction_end < n {
            proof {
                let j = fraction_end - fraction_start;
                assert(bytes@[fraction_end as int] == s[fraction_end as int] as u8);
                assert(fraction_digits(s)[j] == s[fraction_end as int]);
                assert(!is_digit(fraction_digits(s)[j]));
            }
            return None;
        }
        assert forall|i: int| 0 <= i < fraction_digits(s).len() implies is_digit(
            #[trigger] fraction_digits(s)[i],
        ) by {
            assert(is_digit_byte(bytes@[i + fraction_start]));
            assert(bytes@[i + fraction_start] == s[i + fraction_start] as u8);
        }
    } else {
        proof {
            lemma_first_point_is(u, k);
        }
        assert(fraction_digits(s) =~= s.subrange(fraction_start as int, n as int));
    }
    assert(whole_digits(s) =~= s.subrange(start as int, whole_end as int));
    if whole_end - start == 0 && n - fraction_start == 0 {
        return None;
    }
    Some(Parts { start, whole_end, fraction_start })
}

/// What is left of the parts once the needless zeros are skipped is the
/// canonical form.
proof fn lemma_stripped_parts(
    bytes: Seq<u8>,
    s: Seq<char>,
    parts: Parts,
    whole_start: int,
    fraction_end: int,
)
    requires
        spells(bytes, s),
        parts.of(s),
        parts.start <= whole_start <= parts.whole_end,
        forall|i: int| parts.start <= i < whole_start ==> #[trigger] bytes[i] == 48,
        whole_start < parts.whole_end ==> bytes[whole_start] != 48,
        parts.fraction_start <= fraction_end <= s.len(),
        forall|i: int| fraction_end <= i < s.len() ==> #[trigger] bytes[i] == 48,
        fraction_end > parts.fraction_start ==> bytes[fraction_end - 1] != 48,
    ensures
        numeral_value(s).whole == s.subrange(whole_start, parts.whole_end as int),
        numeral_value(s).fraction == s.subrange(parts.fraction_start as int, fraction_end),
{
    let w = whole_digits(s);
    let f = fraction_digits(s);
    let start = parts.start as int;
    let fraction_start = parts.fraction_start as int;
    assert forall|i: int| 0 <= i < whole_start - start implies w[i] == '0' by {
        assert(bytes[i + start] == 48);
        assert(bytes[i + start] == s[i + start] as u8);
    }
    if whole_start < parts.whole_end {
        assert(bytes[whole_start] == s[whole_start] as u8);
        assert(w[whole_start - start] == s[whole_start]);
    }
    lemma_strip_leading_zeros(w, whole_start - start);
    assert(w.skip(whole_start - start) =~= s.subrange(whole_start, parts.whole_end as int));
    assert forall|i: int| fraction_end - fraction_start <= i < f.len() implies f[i] == '0' by {
        assert(bytes[i + fraction_start] == 48);
        assert(bytes[i + fraction_start] == s[i + fraction_start] as u8);
    }
    if fraction_end > fraction_start {
        assert(bytes[fraction_end - 1] == s[fraction_end - 1] as u8);
        assert(f[fraction_end - fraction_start - 1] == s[fraction_end - 1]);
    }
    lemma_strip_trailing_zeros(f, fraction_end - fraction_start);
    assert(f.take(fraction_end - fraction_start) =~= s.subrange(fraction_start, fraction_end));
}

impl Vote {
    #[verifier::type_invariant]
    spec fn well_formed(self) -> bool {
        self@.canonical()
    }

    /// The vote that every participant starts with.
    pub fn zero() -> (vote: Vote)
        ensures
            vote@ == Estimate::zero(),
    {
        Vote { whole: String::new(), fraction: String::new() }
    }

    /// Reads a vote from text. Succeeds exactly on the accepted texts, with
    /// the number that the text stands for.
    pub fn parse(raw: &str) -> (parsed: Option<Vote>)
        ensures
            parsed is Some <==> is_numeral(raw@),
            parsed matches Some(vote) ==> vote@ == numeral_value(raw@),
    {
        broadcast use is_ascii_spec_bytes;

        if !raw.is_ascii() {
            proof {
                if is_numeral(raw@) {
                    lemma_numeral_is_ascii(raw@);
                }
            }
            return None;
        }
        let bytes = raw.as_bytes();
        assert(spells(bytes@, raw@));
        match find_parts(bytes, Ghost(raw@)) {
            None => None,
            Some(parts) => {
                let n: usize = bytes.len();
                let whole_start: usize = skip_zeros(bytes, parts.start, parts.whole_end);
                let fraction_end: usize = skip_zeros_back(bytes, parts.fraction_start, n);
                proof {
                    lemma_stripped_parts(
                        bytes@,
                        raw@,
                        parts,
                        whole_start as int,
                        fraction_end as int,
                    );
                    lemma_numeral_value_canonical(raw@);
                }
                let whole = raw.substring_ascii(whole_start, parts.whole_end).to_owned();
                let fraction = raw.substring_ascii(parts.fraction_start, fraction_end).to_owned();
                Some(Vote { whole, fraction })
            },
        }
    }

    /// Whether the vote is exactly zero.
    pub fn is_zero(&self) -> (zero: bool)
        ensures
            zero == self@.is_zero(),
    {
        self.whole.as_str().is_empty() && self.fraction.as_str().is_empty()
    }

    /// Whether the vote is at least one.
    pub fn at_least_one(&self) -> (whole: bool)
        ensures
            whole == self@.at_least_one(),
    {
        !self.whole.as_str().is_empty()
    }

    /// The numeral that is shown for the vote. It reads back as the same
    /// vote.
    pub fn to_text(&self) -> (text: String)
        ensures
            text@ == self@.text(),
            is_numeral(text@),
            numeral_value(text@) == self@,
    {
        proof {
            use_type_invariant(self);
            reveal_strlit("0");
            reveal_strlit(".");
            lemma_text_reads_back(self@);
        }
        let mut text = if self.whole.as_str().is_empty() {
            "0".to_owned()
        } else {
            self.whole.clone()
        };
        if !self.fraction.as_str().is_empty() {
            text.append(".");
            text.append(self.fraction.as_str());
        }
        assert(text@ =~= self@.text());
        text
    }
}

impl Clone for Vote {
    fn clone(&self) -> (copy: Vote)
        ensures
            copy@ == self@,
    {
        proof {
            use_type_invariant(self);
        }
        Vote { whole: self.whole.clone(), fraction: self.fraction.clone() }
    }
}

/// The numeral shown for a canonical number is accepted and stands for that
/// number.
pub proof fn lemma_text_reads_back(e: Estimate)
    requires
        e.canonical(),
    ensures
        is_numeral(e.text()),
        numeral_value(e.text()) == e,
{
    let t = e.text();
    let w = if e.whole.len() == 0 {
        seq!['0']
    } else {
        e.whole
    };
    assert(all_digits(w));
    assert(w[0] != '+');
    assert(unsigned_part(t) == t);
    assert forall|i: int| 0 <= i < w.len() implies t[i] != '.' by {
        assert(t[i] == w[i]);
        assert(is_digit(w[i]));
    }
    if e.fraction.len() == 0 {
        assert(t == w);
        lemma_first_point_is(t, t.len() as int);
        assert(whole_digits(t) =~= w);
        assert(fraction_digits(t) =~= e.fraction);
    } else {
        assert(t[w.len() as int] == '.');
        lemma_first_point_is(t, w.len() as int);
        assert(whole_digits(t) =~= w);
        assert(fraction_digits(t) =~= e.fraction);
    }
    if e.whole.len() == 0 {
        lemma_strip_leading_zeros(w, 1);
        assert(w.skip(1) =~= e.whole);
    } else {
        lemma_strip_leading_zeros(w, 0);
        assert(w.skip(0) =~= w);
    }
    lemma_strip_trailing_zeros(e.fraction, e.fraction.len() as int);
    assert(e.fraction.take(e.fraction.len() as int) =~= e.fraction);
}

} // verus!

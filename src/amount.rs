use vstd::prelude::*;

verus! {

/// Number of fractional decimal digits an `Amount` holds exactly.
pub const FRACTION_DIGITS: usize = 8;

/// Units in one whole: 10^8.
pub const UNITS_PER_WHOLE: u64 = 100_000_000;

/// A non-negative decimal quantity (a price or a size) with up to eight
/// fractional digits, held exactly as a count of 10^-8 units.
#[derive(Clone, Copy, Debug, PartialEq, Eq, Structural)]
pub struct Amount {
    pub units: u64,
}

impl Amount {
    pub fn from_units(units: u64) -> (r: Amount)
        ensures
            r.units == units,
    {
        Amount { units }
    }
}

pub open spec fn is_digit(c: char) -> bool {
    '0' <= c && c <= '9'
}

pub open spec fn all_digits(s: Seq<char>) -> bool {
    forall|i: int| 0 <= i < s.len() ==> is_digit(#[trigger] s[i])
}

pub open spec fn digit_value(c: char) -> nat {
    (c as int - '0' as int) as nat
}

/// The number written by a string of decimal digits (most significant first).
pub open spec fn digits_value(s: Seq<char>) -> nat
    decreases s.len(),
{
    if s.len() == 0 {
        0
    } else {
        digits_value(s.drop_last()) * 10 + digit_value(s.last())
    }
}

pub open spec fn zeros(n: nat) -> Seq<char> {
    Seq::new(n, |i: int| '0')
}

/// `s` is `digits "." digits`, with the dot at index `k`, a non-empty integer
/// part and a non-empty fraction of at most eight digits.
pub open spec fn dot_at(s: Seq<char>, k: int) -> bool {
    &&& 0 < k < s.len() - 1
    &&& s[k] == '.'
    &&& all_digits(s.take(k))
    &&& all_digits(s.skip(k + 1))
    &&& s.len() - k - 1 <= FRACTION_DIGITS
}

/// The value of a decimal numeral in 10^-8 units: its digits with the dot
/// removed, padded with zeros to eight fractional digits. `None` where `s` is
/// not a numeral of the form `123` or `123.45678901`.
pub open spec fn decimal_units(s: Seq<char>) -> Option<nat> {
    if s.len() > 0 && all_digits(s) {
        Some(digits_value(s + zeros(FRACTION_DIGITS as nat)))
    } else if exists|k: int| dot_at(s, k) {
        let k = choose|k: int| dot_at(s, k);
        Some(
            digits_value(
                s.take(k) + s.skip(k + 1) + zeros((FRACTION_DIGITS - (s.len() - k - 1)) as nat),
            ),
        )
    } else {
        None
    }
}

/// What parsing `s` yields: the amount where `s` is a numeral whose value
/// fits in `u64` units, else nothing.
pub open spec fn parsed_amount(s: Seq<char>) -> Option<Amount> {
    match decimal_units(s) {
        Some(u) => if u <= u64::MAX {
            Some(Amount { units: u as u64 })
        } else {
            None
        },
        None => None,
    }
}

proof fn lemma_digits_value_extend(a: Seq<char>, b: Seq<char>)
    ensures
        digits_value(a + b) >= digits_value(a),
    decreases b.len(),
{
    if b.len() == 0 {
        assert(a + b =~= a);
    } else {
        assert((a + b).drop_last() =~= a + b.drop_last());
        lemma_digits_value_extend(a, b.drop_last());
    }
}

proof fn lemma_dot_unique(s: Seq<char>, k1: int, k2: int)
    requires
        dot_at(s, k1),
        dot_at(s, k2),
    ensures
        k1 == k2,
{
    if k1 < k2 {
        assert(s.skip(k1 + 1)[k2 - k1 - 1] == s[k2]);
    } else if k2 < k1 {
        assert(s.skip(k2 + 1)[k1 - k2 - 1] == s[k1]);
    }
}

fn digit_of(c: char) -> (r: u128)
    requires
        is_digit(c),
    ensures
        r == digit_value(c),
        r <= 9,
{
    (c as u32 - '0' as u32) as u128
}

/// Appends the digits `s[from..to]` to `acc`, failing as soon as the running
/// value exceeds `u64::MAX`.
fn accumulate(s: &str, from: usize, to: usize, acc: u128, Ghost(prefix): Ghost<Seq<char>>) -> (r:
    Option<u128>)
    requires
        from <= to <= s@.len(),
        all_digits(s@.subrange(from as int, to as int)),
        acc == digits_value(prefix),
        acc <= u64::MAX,
    ensures
        match r {
            Some(v) => v == digits_value(prefix + s@.subrange(from as int, to as int)) && v
                <= u64::MAX,
            None => digits_value(prefix + s@.subrange(from as int, to as int)) > u64::MAX,
        },
{
    let mut acc = acc;
    let mut i = from;
    while i < to
        invariant
            from <= i <= to <= s@.len(),
            all_digits(s@.subrange(from as int, to as int)),
            acc == digits_value(prefix + s@.subrange(from as int, i as int)),
            acc <= u64::MAX,
        decreases to - i,
    {
        let c = s.get_char(i);
        assert(s@.subrange(from as int, to as int)[i - from] == c);
        let d = digit_of(c);
        let next = acc * 10 + d;
        proof {
            let a = prefix + s@.subrange(from as int, i + 1);
            assert(a.drop_last() =~= prefix + s@.subrange(from as int, i as int));
            assert(a.last() == c);
        }
        if next > u64::MAX as u128 {
            proof {
                let full = prefix + s@.subrange(from as int, to as int);
                let part = prefix + s@.subrange(from as int, i + 1);
                assert(full =~= part + s@.subrange(i + 1, to as int));
                lemma_digits_value_extend(part, s@.subrange(i + 1, to as int));
            }
            return None;
        }
        acc = next;
        i = i + 1;
    }
    Some(acc)
}

/// Multiplies `acc` by ten `n` times, failing once it exceeds `u64::MAX`.
fn pad_zeros(acc: u128, n: usize, Ghost(digits): Ghost<Seq<char>>) -> (r: Option<u128>)
    requires
        acc == digits_value(digits),
        acc <= u64::MAX,
    ensures
        match r {
            Some(v) => v == digits_value(digits + zeros(n as nat)) && v <= u64::MAX,
            None => digits_value(digits + zeros(n as nat)) > u64::MAX,
        },
{
    let mut acc = acc;
    let mut p: usize = 0;
    while p < n
        invariant
            p <= n,
            acc == digits_value(digits + zeros(p as nat)),
            acc <= u64::MAX,
        decreases n - p,
    {
        proof {
            let a = digits + zeros((p + 1) as nat);
            assert(a.drop_last() =~= digits + zeros(p as nat));
        }
        let next = acc * 10;
        if next > u64::MAX as u128 {
            proof {
                let full = digits + zeros(n as nat);
                let part = digits + zeros((p + 1) as nat);
                assert(full =~= part + zeros((n - p - 1) as nat));
                lemma_digits_value_extend(part, zeros((n - p - 1) as nat));
            }
            return None;
        }
        acc = next;
        p = p + 1;
    }
    Some(acc)
}

/// Parses a decimal numeral such as `"0.06339"` or `"74"` into an exact
/// amount. Fails on anything else (signs, exponents, more than eight
/// fractional digits, empty parts) and on values too large for `u64` units.
pub fn parse_amount(s: &str) -> (r: Option<Amount>)
    ensures
        r == parsed_amount(s@),
{
    let n = s.unicode_len();
    let mut k: usize = 0;
    let mut scanning = true;
    while scanning && k < n
        invariant
            k <= n == s@.len(),
            all_digits(s@.take(k as int)),
            !scanning ==> k < n && !is_digit(s@[k as int]),
        decreases 2 * (n - k) + if scanning { 1int } else { 0int },
    {
        let c = s.get_char(k);
        if !('0' <= c && c <= '9') {
            scanning = false;
            continue;
        }
        proof {
            assert forall|i: int| 0 <= i < k + 1 implies is_digit(#[trigger] s@.take(k + 1)[i]) by {
                if i < k {
                    assert(s@.take(k as int)[i] == s@.take(k + 1)[i]);
                }
            }
        }
        k = k + 1;
    }
    if k == 0 {
        proof {
            if n > 0 {
                assert(!is_digit(s@[0]));
                assert(!all_digits(s@));
                assert forall|j: int| !dot_at(s@, j) by {
                    if dot_at(s@, j) {
                        assert(s@.take(j)[0] == s@[0]);
                    }
                }
            }
        }
        return None;
    }
    let frac_len: usize;
    if k == n {
        assert(s@.take(k as int) =~= s@);
        frac_len = 0;
    } else {
        let dot = s.get_char(k);
        // everything after the dot must be digits, one to eight of them
        let mut j: usize = k + 1;
        let mut ok = dot == '.' && k + 1 < n && n - k - 1 <= FRACTION_DIGITS;
        while ok && j < n
            invariant
                0 < k < n == s@.len(),
                k + 1 <= j <= n,
                dot == s@[k as int],
                all_digits(s@.take(k as int)),
                ok ==> all_digits(s@.subrange(k + 1, j as int)),
                ok ==> dot == '.' && k + 1 < n && n - k - 1 <= FRACTION_DIGITS,
                !ok ==> dot != '.' || k + 1 >= n || n - k - 1 > FRACTION_DIGITS || (j < n
                    && !is_digit(s@[j as int])),
            decreases 2 * (n - j) + if ok { 1int } else { 0int },
        {
            let c = s.get_char(j);
            if '0' <= c && c <= '9' {
                proof {
                    assert forall|i: int| 0 <= i < j + 1 - (k + 1) implies is_digit(
                        #[trigger] s@.subrange(k + 1, j + 1)[i],
                    ) by {
                        if i < j - (k + 1) {
                            assert(s@.subrange(k + 1, j as int)[i] == s@.subrange(k + 1, j + 1)[i]);
                        }
                    }
                }
                j = j + 1;
            } else {
                ok = false;
            }
        }
        if !ok {
            proof {
                assert(!all_digits(s@)) by {
                    assert(!is_digit(s@[k as int]));
                }
                assert forall|i: int| !dot_at(s@, i) by {
                    if dot_at(s@, i) {
                        if i < k {
                            assert(s@.take(k as int)[i] == s@[i]);
                        } else if i > k {
                            assert(s@.take(i)[k as int] == s@[k as int]);
                        } else {
                            assert(s@.skip(k + 1) =~= s@.subrange(k + 1, n as int));
                            if j < n {
                                assert(s@.skip(k + 1)[j - k - 1] == s@[j as int]);
                            }
                        }
                    }
                }
            }
            return None;
        }
        proof {
            assert(s@.skip(k + 1) =~= s@.subrange(k + 1, n as int));
            assert(dot_at(s@, k as int));
            assert(!all_digits(s@)) by {
                assert(!is_digit(s@[k as int]));
            }
            let c = choose|c: int| dot_at(s@, c);
            lemma_dot_unique(s@, c, k as int);
        }
        frac_len = n - k - 1;
    }
    // the numeral is well formed: accumulate its digits
    let ghost int_part = s@.take(k as int);
    assert(s@.subrange(0, k as int) =~= int_part);
    assert(Seq::<char>::empty() + int_part =~= int_part);
    let acc = match accumulate(s, 0, k, 0, Ghost(Seq::empty())) {
        Some(v) => v,
        None => {
            proof {
                if frac_len == 0 {
                    lemma_digits_value_extend(int_part, zeros(FRACTION_DIGITS as nat));
                } else {
                    let rest = s@.skip(k + 1) + zeros((FRACTION_DIGITS - frac_len) as nat);
                    assert(int_part + s@.skip(k + 1) + zeros((FRACTION_DIGITS - frac_len) as nat)
                        =~= int_part + rest);
                    lemma_digits_value_extend(int_part, rest);
                }
            }
            return None;
        },
    };
    let ghost body = if frac_len == 0 {
        int_part
    } else {
        int_part + s@.skip(k + 1)
    };
    let acc = if frac_len == 0 {
        acc
    } else {
        match accumulate(s, k + 1, n, acc, Ghost(int_part)) {
            Some(v) => {
                assert(s@.subrange(k + 1, n as int) =~= s@.skip(k + 1));
                v
            },
            None => {
                proof {
                    assert(s@.subrange(k + 1, n as int) =~= s@.skip(k + 1));
                    lemma_digits_value_extend(
                        body,
                        zeros((FRACTION_DIGITS - frac_len) as nat),
                    );
                }
                return None;
            },
        }
    };
    match pad_zeros(acc, FRACTION_DIGITS - frac_len, Ghost(body)) {
        Some(v) => Some(Amount { units: v as u64 }),
        None => None,
    }
}

} // verus!

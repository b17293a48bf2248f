//! Amounts of safecoins, counted in nano coins (10^-9 coin).
use vstd::prelude::*;

use crate::error::{Error, Result};
use crate::helpers::{digit_value, parse_u64, parse_u64_outcome, scan_digits};
use crate::text::{
    chars_to_string, decimal, decimal_digit, first_index_of, lemma_first_index_bound, lemma_first_index_of_concat,
    owned, push_char, push_str,
    str_to_chars, u64_to_decimal,
};

verus! {

/// Nano coins in one coin.
pub const NANOS_PER_COIN: u64 = 1_000_000_000;

/// A text padded on the left with zeros to `width` characters.
pub open spec fn zero_padded(s: Seq<char>, width: nat) -> Seq<char> {
    if s.len() >= width {
        s
    } else {
        Seq::new((width - s.len()) as nat, |i: int| '0') + s
    }
}

/// The text of an amount: whole coins, a dot, and nine digits of nano coins
/// (`safe_nd::Coins`'s display).
pub open spec fn coins_text(nanos: nat) -> Seq<char> {
    decimal(nanos / 1_000_000_000) + "."@ + zero_padded(decimal(nanos % 1_000_000_000), 9)
}

proof fn lemma_decimal_len(n: nat)
    requires
        n < 1_000_000_000,
    ensures
        decimal(n).len() <= 9,
{
    reveal_with_fuel(pow10, 10);
    assert(pow10(9) == 1_000_000_000);
    lemma_decimal_len_below(n, 9);
}

pub open spec fn pow10(k: nat) -> nat
    decreases k,
{
    if k == 0 {
        1
    } else {
        10 * pow10((k - 1) as nat)
    }
}

proof fn lemma_decimal_len_below(n: nat, k: nat)
    requires
        k >= 1,
        n < pow10(k),
    ensures
        decimal(n).len() <= k,
    decreases k,
{
    reveal_with_fuel(pow10, 10);
    if n >= 10 {
        assert(k >= 2) by {
            if k == 1 {
                assert(pow10(1) == 10);
            }
        }
        let m = (n / 10) as nat;
        assert(m < pow10((k - 1) as nat)) by (nonlinear_arith)
            requires
                n < pow10(k),
                pow10(k) == 10 * pow10((k - 1) as nat),
                m == n / 10,
        ;
        lemma_decimal_len_below(m, (k - 1) as nat);
    }
}

/// The text of an amount (see `coins_text`).
pub fn coins_to_string(nanos: u64) -> (res: String)
    ensures
        res@ == coins_text(nanos as nat),
{
    let units = nanos / NANOS_PER_COIN;
    let remainder = nanos % NANOS_PER_COIN;
    let mut res = u64_to_decimal(units);
    push_char(&mut res, '.');
    let digits = u64_to_decimal(remainder);
    let n = digits.as_str().unicode_len();
    proof {
        lemma_decimal_len(remainder as nat);
    }
    let ghost start = res@;
    let mut i: usize = n;
    while i < 9
        invariant
            n <= i <= 9,
            res@ == start + Seq::new((i - n) as nat, |j: int| '0'),
        decreases 9 - i,
    {
        push_char(&mut res, '0');
        proof {
            assert(start + Seq::new((i + 1 - n) as nat, |j: int| '0') =~= start + Seq::new(
                (i - n) as nat,
                |j: int| '0',
            ).push('0'));
        }
        i = i + 1;
    }
    push_str(&mut res, digits.as_str());
    proof {
        reveal_strlit(".");
        let d = decimal(remainder as nat);
        assert(digits@ == d);
        if d.len() >= 9 {
            assert(Seq::new((9 - n) as nat, |j: int| '0') =~= Seq::<char>::empty());
            assert(zero_padded(d, 9) == d);
        } else {
            assert(zero_padded(d, 9) == Seq::new((9 - n) as nat, |j: int| '0') + d);
        }
        assert(res@ =~= coins_text(nanos as nat));
    }
    res
}

/// The largest amount of nano coins that a user may name: that of `u32::MAX + 1`
/// coins, less one nano coin.
pub const MAX_COINS_VALUE: u64 = 4_294_967_295_999_999_999;

/// The text with its trailing `0` characters removed.
pub open spec fn trim_end_zeros(s: Seq<char>) -> Seq<char>
    decreases s.len(),
{
    if s.len() > 0 && s.last() == '0' {
        trim_end_zeros(s.drop_last())
    } else {
        s
    }
}

/// The text before the first `.` of an amount (all of it when there is none).
pub open spec fn units_part(s: Seq<char>) -> Seq<char> {
    s.take(first_index_of(s, '.') as int)
}

/// The text after the first `.` of an amount, without its trailing zeros (empty
/// when there is no `.`).
pub open spec fn remainder_part(s: Seq<char>) -> Seq<char> {
    let i = first_index_of(s, '.');
    if i < s.len() {
        trim_end_zeros(s.skip(i + 1 as int))
    } else {
        Seq::empty()
    }
}

/// What reading a text of coins gives.
pub ghost enum CoinsParse {
    /// An amount of nano coins (which may exceed `u64::MAX`).
    Nanos(nat),
    /// The whole coins exceed what `u64` nano coins can hold.
    Excessive,
    /// More than nine decimals.
    Precision,
    /// A part is not a number; the reason.
    Unparsable(Seq<char>),
}

/// How `safe_nd::Coins::from_str` reads a text: the part before the first `.` is
/// the whole coins and the part after it, less its trailing zeros, the decimals,
/// each read as `str::parse::<u64>` reads a text.
pub open spec fn coins_parse(s: Seq<char>) -> CoinsParse {
    match parse_u64_outcome(units_part(s)) {
        Err(_) => CoinsParse::Unparsable("Can't parse coin units"@),
        Ok(units) => if units * 1_000_000_000 > u64::MAX {
            CoinsParse::Excessive
        } else {
            let r = remainder_part(s);
            if r.len() == 0 {
                CoinsParse::Nanos(units * 1_000_000_000)
            } else {
                match parse_u64_outcome(r) {
                    Err(_) => CoinsParse::Unparsable("Can't parse coin remainder"@),
                    Ok(v) => if r.len() > 9 {
                        CoinsParse::Precision
                    } else {
                        CoinsParse::Nanos(units * 1_000_000_000 + v * pow10((9 - r.len()) as nat))
                    },
                }
            }
        },
    }
}

/// Whether reading a text of coins overflows while adding the decimals to the
/// whole coins (which `safe_nd::Coins::from_str` does not guard against).
pub open spec fn coins_parse_overflows(s: Seq<char>) -> bool {
    coins_parse(s) matches CoinsParse::Nanos(n) && n > u64::MAX
}

/// Why `safe_nd::Coins::from_str` refused a text.
#[derive(Debug, Clone, PartialEq)]
pub enum CoinsParseError {
    ExcessiveValue,
    LossOfPrecision,
    FailedToParse(String),
    /// Any other error of `safe_nd` (which reading a text does not give).
    Other,
}

/// Reads a text of coins with `safe_nd::Coins::from_str`, in nano coins. The
/// contract restates that function's source: see `coins_parse`.
#[verifier::external_body]
fn coins_from_str(s: &str) -> (res: core::result::Result<u64, CoinsParseError>)
    requires
        !coins_parse_overflows(s@),
    ensures
        match coins_parse(s@) {
            CoinsParse::Nanos(n) => res == Ok::<u64, CoinsParseError>(n as u64),
            CoinsParse::Excessive => res == Err::<u64, CoinsParseError>(CoinsParseError::ExcessiveValue),
            CoinsParse::Precision => res == Err::<u64, CoinsParseError>(CoinsParseError::LossOfPrecision),
            CoinsParse::Unparsable(m) => res matches Err(CoinsParseError::FailedToParse(x)) && x@ == m,
        },
{
    match s.parse::<safe_nd::Coins>() {
        Ok(coins) => Ok(coins.as_nano()),
        Err(safe_nd::Error::ExcessiveValue) => Err(CoinsParseError::ExcessiveValue),
        Err(safe_nd::Error::LossOfPrecision) => Err(CoinsParseError::LossOfPrecision),
        Err(safe_nd::Error::FailedToParse(msg)) => Err(CoinsParseError::FailedToParse(msg)),
        Err(_) => Err(CoinsParseError::Other),
    }
}

/// The message of the error for an amount that is not a valid amount of coins.
pub open spec fn invalid_amount_message(s: Seq<char>, p: CoinsParse) -> Seq<char> {
    match p {
        CoinsParse::Excessive => "Invalid safecoins amount '"@ + s + "', it exceeds the maximum possible value '"@
            + coins_text(MAX_COINS_VALUE as nat) + "'"@,
        CoinsParse::Precision => "Invalid safecoins amount '"@ + s
            + "', the minimum possible amount is one nano coin (0.000000001)"@,
        CoinsParse::Unparsable(m) => "Invalid safecoins amount '"@ + s + "' ("@ + m + ")"@,
        CoinsParse::Nanos(_) => Seq::empty(),
    }
}

/// Reads an amount of coins, in nano coins; an invalid amount is an
/// `InvalidAmount` error that says why.
pub fn parse_coins_amount(amount_str: &str) -> (res: Result<u64>)
    requires
        !coins_parse_overflows(amount_str@),
    ensures
        match coins_parse(amount_str@) {
            CoinsParse::Nanos(n) => res == Ok::<u64, Error>(n as u64),
            p => res matches Err(Error::InvalidAmount(m)) && m@ == invalid_amount_message(amount_str@, p),
        },
{
    match coins_from_str(amount_str) {
        Ok(nanos) => Ok(nanos),
        Err(err) => {
            let mut msg = owned("Invalid safecoins amount '");
            push_str(&mut msg, amount_str);
            match err {
                CoinsParseError::ExcessiveValue => {
                    push_str(&mut msg, "', it exceeds the maximum possible value '");
                    push_str(&mut msg, coins_to_string(MAX_COINS_VALUE).as_str());
                    push_str(&mut msg, "'");
                },
                CoinsParseError::LossOfPrecision => {
                    push_str(&mut msg, "', the minimum possible amount is one nano coin (0.000000001)");
                },
                CoinsParseError::FailedToParse(m) => {
                    push_str(&mut msg, "' (");
                    push_str(&mut msg, m.as_str());
                    push_str(&mut msg, ")");
                },
                CoinsParseError::Other => {
                    push_str(&mut msg, "'");
                },
            }
            Err(Error::InvalidAmount(msg))
        },
    }
}

/// The characters of `v` from `start` up to `end`.
pub(crate) fn sub_chars(v: &Vec<char>, start: usize, end: usize) -> (res: Vec<char>)
    requires
        start <= end <= v@.len(),
    ensures
        res@ == v@.subrange(start as int, end as int),
{
    let mut res: Vec<char> = Vec::new();
    let mut i: usize = start;
    while i < end
        invariant
            start <= i <= end <= v@.len(),
            res@ == v@.subrange(start as int, i as int),
        decreases end - i,
    {
        res.push(v[i]);
        proof {
            assert(res@ =~= v@.subrange(start as int, i + 1));
        }
        i = i + 1;
    }
    res
}

/// Ten to the power `k`, for `k` up to nine.
fn pow10_exec(k: usize) -> (res: u64)
    requires
        k <= 9,
    ensures
        res as nat == pow10(k as nat),
{
    let mut res: u64 = 1;
    let mut i: usize = 0;
    while i < k
        invariant
            i <= k <= 9,
            res as nat == pow10(i as nat),
            res <= 1_000_000_000,
        decreases k - i,
    {
        proof {
            reveal_with_fuel(pow10, 10);
            assert(pow10(i as nat + 1) == 10 * pow10(i as nat));
            assert(pow10(i as nat) <= 100_000_000) by {
                lemma_pow10_le8(i as nat);
            }
        }
        res = res * 10;
        i = i + 1;
    }
    res
}

proof fn lemma_pow10_pos(k: nat)
    ensures
        pow10(k) >= 1,
    decreases k,
{
    if k > 0 {
        lemma_pow10_pos((k - 1) as nat);
    }
}

proof fn lemma_pow10_le8(k: nat)
    requires
        k <= 8,
    ensures
        pow10(k) <= 100_000_000,
    decreases k,
{
    reveal_with_fuel(pow10, 10);
}

/// Whether reading the text as an amount of coins overflows (see
/// `coins_parse_overflows`): a text that `parse_coins_amount` cannot take.
pub fn coins_amount_overflows(s: &str) -> (res: bool)
    ensures
        res == coins_parse_overflows(s@),
{
    let chars = str_to_chars(s);
    let n = chars.len();
    let mut i: usize = 0;
    while i < n && chars[i] != '.'
        invariant
            chars@ == s@,
            n == chars@.len(),
            i <= n,
            forall|j: int| 0 <= j < i ==> chars@[j] != '.',
        decreases n - i,
    {
        i = i + 1;
    }
    proof {
        lemma_first_index_bound(s@, '.');
        assert(i == first_index_of(s@, '.'));
    }
    let units_text = chars_to_string(sub_chars(&chars, 0, i).as_slice());
    assert(units_text@ =~= units_part(s@));
    let units = match parse_u64(units_text.as_str()) {
        Ok(u) => u,
        Err(_) => {
            return false;
        },
    };
    if units > 18_446_744_073 {
        return false;
    }
    if i == n {
        return false;
    }
    let rest = sub_chars(&chars, i + 1, n);
    let mut end: usize = rest.len();
    assert(rest@ =~= s@.skip(i + 1 as int));
    assert(rest@.take(end as int) =~= rest@);
    while end > 0 && rest[end - 1] == '0'
        invariant
            end <= rest@.len(),
            trim_end_zeros(rest@.take(end as int)) == trim_end_zeros(rest@),
        decreases end,
    {
        assert(rest@.take(end as int).drop_last() =~= rest@.take(end - 1));
        end = end - 1;
    }
    let r = sub_chars(&rest, 0, end);
    assert(r@ =~= rest@.take(end as int));
    assert(r@ == remainder_part(s@));
    if end == 0 {
        return false;
    }
    let rem_text = chars_to_string(r.as_slice());
    let v = match parse_u64(rem_text.as_str()) {
        Ok(v) => v,
        Err(_) => {
            return false;
        },
    };
    if end > 9 {
        return false;
    }
    let p = pow10_exec(9 - end);
    let whole: u64 = units * 1_000_000_000;
    assert(pow10((9 - end) as nat) <= 1_000_000_000) by {
        reveal_with_fuel(pow10, 10);
        if 9 - end <= 8 {
            lemma_pow10_le8((9 - end) as nat);
        }
    }
    proof {
        lemma_pow10_pos((9 - end) as nat);
    }
    let limit: u64 = u64::MAX / p;
    if v > limit {
        assert(v * p > u64::MAX) by (nonlinear_arith)
            requires
                v > limit,
                limit == u64::MAX / p,
                p >= 1,
        ;
        return true;
    }
    assert(v * p <= u64::MAX) by (nonlinear_arith)
        requires
            v <= limit,
            limit == u64::MAX / p,
            p >= 1,
    ;
    let frac: u64 = v * p;
    frac > u64::MAX - whole
}

/// The value of a text of decimal digits, most significant first.
pub open spec fn digits_value(s: Seq<char>) -> nat
    decreases s.len(),
{
    if s.len() == 0 {
        0
    } else {
        digits_value(s.drop_last()) * 10 + match digit_value(s.last()) {
            Some(d) => d,
            None => 0,
        }
    }
}

/// Whether every character of a text is a decimal digit.
pub open spec fn all_digits(s: Seq<char>) -> bool {
    forall|i: int| 0 <= i < s.len() ==> #[trigger] digit_value(s[i]) is Some
}

proof fn lemma_digit_of_decimal_digit(k: int)
    requires
        0 <= k < 10,
    ensures
        digit_value(decimal_digit(k)) == Some(k as nat),
{
}

proof fn lemma_digits_value_front(t: Seq<char>)
    requires
        t.len() > 0,
        all_digits(t),
    ensures
        digits_value(t) == (digit_value(t[0])->0) * pow10((t.len() - 1) as nat) + digits_value(t.skip(1)),
    decreases t.len(),
{
    reveal_with_fuel(pow10, 2);
    let d0 = digit_value(t[0])->0;
    assert(digit_value(t[0]) is Some);
    if t.len() == 1 {
        assert(t.skip(1) =~= Seq::<char>::empty());
        assert(t.drop_last() =~= Seq::<char>::empty());
        assert(digits_value(Seq::<char>::empty()) == 0);
        assert(t.last() == t[0]);
        assert(pow10(0) == 1);
        assert(digits_value(t) == 0 * 10 + d0);
        assert(d0 * pow10(0) == d0) by (nonlinear_arith)
            requires
                pow10(0) == 1,
        ;
    } else {
        let u = t.drop_last();
        assert(all_digits(u)) by {
            assert forall|i: int| 0 <= i < u.len() implies #[trigger] digit_value(u[i]) is Some by {
                assert(u[i] == t[i]);
            }
        }
        lemma_digits_value_front(u);
        assert(t.skip(1).drop_last() =~= u.skip(1));
        assert(t.skip(1).last() == t.last());
        assert(t.skip(1).len() > 0);
        let p = pow10((u.len() - 1) as nat);
        assert(digit_value(t.last()) is Some);
        let c = digit_value(t.last())->0;
        assert(u[0] == t[0]);
        assert(pow10((t.len() - 1) as nat) == 10 * p);
        assert(digits_value(t) == digits_value(u) * 10 + c);
        assert(digits_value(t.skip(1)) == digits_value(u.skip(1)) * 10 + c);
        assert(digits_value(u) == d0 * p + digits_value(u.skip(1)));
        assert((d0 * p + digits_value(u.skip(1))) * 10 + c == d0 * (10 * p) + (digits_value(u.skip(1)) * 10
            + c)) by (nonlinear_arith);
        assert(d0 * pow10((t.len() - 1) as nat) == d0 * (10 * p));
    }
}

proof fn lemma_scan_all_digits(s: Seq<char>, i: nat, acc: nat)
    requires
        all_digits(s),
        i <= s.len(),
        acc * pow10((s.len() - i) as nat) + digits_value(s.skip(i as int)) <= u64::MAX,
    ensures
        scan_digits(s, i, acc) == Ok::<nat, crate::helpers::ParseIntErrorKind>(
            acc * pow10((s.len() - i) as nat) + digits_value(s.skip(i as int)),
        ),
    decreases s.len() - i,
{
    reveal_with_fuel(pow10, 2);
    if i == s.len() {
        assert(s.skip(i as int) =~= Seq::<char>::empty());
        assert(pow10(0) == 1);
        assert(pow10((s.len() - i) as nat) == 1);
        assert(digits_value(Seq::<char>::empty()) == 0);
        assert(scan_digits(s, i, acc) == Ok::<nat, crate::helpers::ParseIntErrorKind>(acc));
        assert(acc * pow10((s.len() - i) as nat) == acc) by (nonlinear_arith)
            requires
                pow10((s.len() - i) as nat) == 1,
        ;
    } else {
        let t = s.skip(i as int);
        assert(all_digits(t)) by {
            assert forall|j: int| 0 <= j < t.len() implies #[trigger] digit_value(t[j]) is Some by {
                assert(t[j] == s[i + j]);
            }
        }
        lemma_digits_value_front(t);
        assert(t[0] == s[i as int]);
        assert(t.skip(1) =~= s.skip(i + 1 as int));
        let d = digit_value(s[i as int])->0;
        let k = (s.len() - i - 1) as nat;
        let p = pow10(k);
        assert(pow10((s.len() - i) as nat) == 10 * p);
        lemma_pow10_pos(k);
        assert(acc * (10 * p) + (d * p + digits_value(s.skip(i + 1 as int))) == (acc * 10 + d) * p + digits_value(
            s.skip(i + 1 as int),
        )) by (nonlinear_arith);
        assert(acc * 10 + d <= (acc * 10 + d) * p) by (nonlinear_arith)
            requires
                p >= 1,
        ;
        assert(digit_value(s[i as int]) == Some(d));
        assert((acc * 10 + d) * p + digits_value(s.skip(i + 1 as int)) <= u64::MAX);
        assert(acc * 10 + d <= u64::MAX);
        lemma_scan_all_digits(s, i + 1, acc * 10 + d);
        assert(scan_digits(s, i, acc) == scan_digits(s, i + 1, acc * 10 + d));
    }
}

proof fn lemma_decimal_digits(n: nat)
    ensures
        all_digits(decimal(n)),
        digits_value(decimal(n)) == n,
        decimal(n).len() > 0,
    decreases n,
{
    if n < 10 {
        lemma_digit_of_decimal_digit(n as int);
        assert(decimal(n).drop_last() =~= Seq::<char>::empty());
        assert(decimal(n).last() == decimal_digit(n as int));
        assert(digits_value(Seq::<char>::empty()) == 0);
        assert(digits_value(decimal(n)) == 0 * 10 + n);
    } else {
        lemma_decimal_digits((n / 10) as nat);
        lemma_digit_of_decimal_digit((n % 10) as int);
        let d = decimal(n);
        assert(d.drop_last() =~= decimal((n / 10) as nat));
        assert(d.last() == decimal_digit((n % 10) as int));
        assert(digits_value(d) == digits_value(decimal((n / 10) as nat)) * 10 + (n % 10));
        assert(((n / 10) as nat) * 10 + n % 10 == n);
        assert(all_digits(d)) by {
            assert forall|i: int| 0 <= i < d.len() implies #[trigger] digit_value(d[i]) is Some by {
                if i < d.len() - 1 {
                    assert(d[i] == decimal((n / 10) as nat)[i]);
                }
            }
        }
    }
}

proof fn lemma_zeros_value(k: nat)
    ensures
        all_digits(Seq::new(k, |i: int| '0')),
        digits_value(Seq::new(k, |i: int| '0')) == 0,
    decreases k,
{
    if k > 0 {
        lemma_zeros_value((k - 1) as nat);
        assert(Seq::new(k, |i: int| '0').drop_last() =~= Seq::new((k - 1) as nat, |i: int| '0'));
    }
}

proof fn lemma_digits_value_concat(a: Seq<char>, b: Seq<char>)
    requires
        all_digits(a),
        all_digits(b),
        digits_value(a) == 0,
    ensures
        all_digits(a + b),
        digits_value(a + b) == digits_value(b),
    decreases b.len(),
{
    if b.len() == 0 {
        assert(a + b =~= a);
    } else {
        let b1 = b.drop_last();
        assert(all_digits(b1)) by {
            assert forall|i: int| 0 <= i < b1.len() implies #[trigger] digit_value(b1[i]) is Some by {
                assert(b1[i] == b[i]);
            }
        }
        lemma_digits_value_concat(a, b1);
        assert((a + b).drop_last() =~= a + b1);
        assert((a + b).last() == b.last());
    }
    assert(all_digits(a + b)) by {
        assert forall|i: int| 0 <= i < (a + b).len() implies #[trigger] digit_value((a + b)[i]) is Some by {
            if i < a.len() {
                assert((a + b)[i] == a[i]);
            } else {
                assert((a + b)[i] == b[i - a.len()]);
            }
        }
    }
}

proof fn lemma_trim_end_zeros(s: Seq<char>)
    requires
        all_digits(s),
    ensures
        all_digits(trim_end_zeros(s)),
        trim_end_zeros(s).len() <= s.len(),
        digits_value(trim_end_zeros(s)) * pow10((s.len() - trim_end_zeros(s).len()) as nat) == digits_value(s),
        trim_end_zeros(s).len() > 0 ==> trim_end_zeros(s).last() != '0',
        trim_end_zeros(s) == s.take(trim_end_zeros(s).len() as int),
    decreases s.len(),
{
    reveal_with_fuel(pow10, 2);
    if s.len() > 0 && s.last() == '0' {
        let s1 = s.drop_last();
        assert(all_digits(s1)) by {
            assert forall|i: int| 0 <= i < s1.len() implies #[trigger] digit_value(s1[i]) is Some by {
                assert(s1[i] == s[i]);
            }
        }
        lemma_trim_end_zeros(s1);
        let t = trim_end_zeros(s1);
        assert(trim_end_zeros(s) == t);
        let k = (s1.len() - t.len()) as nat;
        let vt = digits_value(t);
        let pk = pow10(k);
        assert(pow10(k + 1) == 10 * pk);
        assert((s.len() - t.len()) as nat == k + 1);
        assert(vt * pk == digits_value(s1));
        assert(digit_value(s.last()) == Some(0nat));
        assert(digits_value(s) == digits_value(s1) * 10);
        assert(vt * (10 * pk) == (vt * pk) * 10) by (nonlinear_arith);
        assert(s.take(t.len() as int) =~= s1.take(t.len() as int));
    } else {
        assert(s.take(s.len() as int) =~= s);
        assert(pow10(0) == 1);
        assert(digits_value(s) * pow10(0) == digits_value(s)) by (nonlinear_arith)
            requires
                pow10(0) == 1,
        ;
    }
}

/// Reading back the text of an amount gives the amount: `parse_coins_amount`
/// undoes `coins_to_string`.
pub proof fn lemma_coins_text_parses_back(n: u64)
    ensures
        coins_parse(coins_text(n as nat)) == CoinsParse::Nanos(n as nat),
{
    reveal_with_fuel(pow10, 10);
    reveal_strlit(".");
    let u = (n / 1_000_000_000) as nat;
    let r = (n % 1_000_000_000) as nat;
    let a = decimal(u);
    let dr = decimal(r);
    let b = zero_padded(dr, 9);
    let s = coins_text(n as nat);
    assert(s == a + "."@ + b);
    lemma_decimal_digits(u);
    lemma_decimal_digits(r);
    lemma_decimal_len(r);
    // The whole coins are the text before the dot.
    assert(!a.contains('.')) by {
        if a.contains('.') {
            let j = choose|j: int| 0 <= j < a.len() && a[j] == '.';
            assert(digit_value(a[j]) is Some);
        }
    }
    assert(a + "."@ + b =~= a + ("."@ + b));
    lemma_first_index_of_concat(a, "."@ + b, '.');
    assert(("."@ + b)[0] == '.');
    assert(first_index_of("."@ + b, '.') == 0);
    assert(first_index_of(s, '.') == a.len());
    assert(units_part(s) =~= a);
    assert(s.skip(a.len() + 1 as int) =~= b);
    assert(remainder_part(s) == trim_end_zeros(b));
    // The whole coins parse back.
    assert(u * 1_000_000_000 <= n);
    assert(a[0] != '+' && a[0] != '-') by {
        assert(digit_value(a[0]) is Some);
    }
    assert(a.skip(0) =~= a);
    lemma_scan_all_digits(a, 0, 0);
    assert(parse_u64_outcome(a) == Ok::<nat, crate::helpers::ParseIntErrorKind>(u));
    // The decimals, padded to nine digits, are worth the remainder.
    let z = Seq::new((9 - dr.len()) as nat, |i: int| '0');
    lemma_zeros_value((9 - dr.len()) as nat);
    if dr.len() >= 9 {
        assert(b == dr);
    } else {
        assert(b == z + dr);
        lemma_digits_value_concat(z, dr);
    }
    assert(b.len() == 9);
    assert(all_digits(b));
    assert(digits_value(b) == r);
    lemma_trim_end_zeros(b);
    let t = trim_end_zeros(b);
    let p = pow10((9 - t.len()) as nat);
    lemma_pow10_pos((9 - t.len()) as nat);
    assert(digits_value(t) * p == r);
    if t.len() == 0 {
        assert(t =~= Seq::<char>::empty());
        assert(digits_value(t) == 0);
        assert(r == 0) by (nonlinear_arith)
            requires
                digits_value(t) * p == r,
                digits_value(t) == 0,
        ;
        assert(u * 1_000_000_000 == n);
    } else {
        assert(digits_value(t) <= r) by (nonlinear_arith)
            requires
                digits_value(t) * p == r,
                p >= 1,
        ;
        assert(t[0] == b[0]);
        assert(t[0] != '+' && t[0] != '-') by {
            assert(digit_value(t[0]) is Some);
        }
        assert(t.skip(0) =~= t);
        lemma_scan_all_digits(t, 0, 0);
        assert(parse_u64_outcome(t) == Ok::<nat, crate::helpers::ParseIntErrorKind>(digits_value(t)));
        assert(u * 1_000_000_000 + r == n);
    }
}

/// The decimal text of a number reads back as the number (`str::parse::<u64>`).
pub proof fn lemma_parse_decimal(n: u64)
    ensures
        parse_u64_outcome(decimal(n as nat)) == Ok::<nat, crate::helpers::ParseIntErrorKind>(n as nat),
{
    let a = decimal(n as nat);
    lemma_decimal_digits(n as nat);
    assert(a[0] != '+' && a[0] != '-') by {
        assert(digit_value(a[0]) is Some);
    }
    assert(a.skip(0) =~= a);
    reveal_with_fuel(pow10, 1);
    assert(0 * pow10(a.len()) == 0);
    lemma_scan_all_digits(a, 0, 0);
}

} // verus!

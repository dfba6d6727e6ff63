//! Common types of the chain: indices of keys and credentials, amounts in
//! micro units with their decimal notation, and points in time.

use vstd::prelude::*;
use vstd::std_specs::convert::FromSpecImpl;
use vstd::std_specs::ops::AddSpecImpl;
use vstd::string::{StrSliceExecFns, StringExecFns};

verus! {

/// Index of an account key that is to be used.
#[derive(Debug, PartialEq, Eq, PartialOrd, Ord, Clone, Copy, Hash, Structural)]
pub struct KeyIndex(pub u8);

/// Index of the credential that is to be used.
#[derive(Copy, Clone, Eq, PartialEq, Ord, PartialOrd, Debug, Hash, Structural)]
pub struct CredentialIndex {
    pub index: u8,
}

/// An amount, counted in millionths of one unit.
#[derive(Clone, Copy, Debug, PartialEq, Eq, PartialOrd, Ord, Structural)]
pub struct Amount {
    pub microgtu: u64,
}

/// Why a string is no amount.
#[derive(Clone, Copy, Debug, Eq, PartialEq, Structural)]
pub enum AmountParseError {
    Overflow,
    ExpectedDot,
    ExpectedDigit,
    ExpectedMore,
    ExpectedDigitOrDot,
    AtMostSixDecimals,
}

/// Datatype used to indicate transaction expiry.
#[derive(PartialEq, Eq, Debug, Clone, Copy, PartialOrd, Ord, Structural)]
pub struct TransactionTime {
    /// Seconds since the unix epoch.
    pub seconds: u64,
}

/// Datatype used to indicate a timestamp in milliseconds.
#[derive(PartialEq, Eq, Debug, Clone, Copy, PartialOrd, Ord, Structural)]
pub struct Timestamp {
    /// Milliseconds since the unix epoch.
    pub millis: u64,
}

/// Where the reading of an amount stands.
#[derive(Clone, Copy, Debug, PartialEq, Eq, Structural)]
pub enum Place {
    /// Nothing was read.
    Start,
    /// A single zero was read: only a dot may follow.
    LeadingZero,
    /// Digits of the whole part were read, the first of them not zero.
    Whole,
    /// The dot was read, and `after_dot` digits behind it.
    Fraction,
}

/// What was read of an amount so far.
pub struct Reading {
    pub place: Place,
    /// The number that the digits read so far make, the dot left out.
    pub value: nat,
    /// How many digits were read behind the dot.
    pub after_dot: nat,
}

/// The digit that a character is, if it is one of `0` to `9`.
pub open spec fn digit_value(c: char) -> Option<nat> {
    if '0' <= c <= '9' {
        Some((c as u32 - '0' as u32) as nat)
    } else {
        None
    }
}

/// `value * 10 + d`, unless that is no `u64`.
pub open spec fn appended(value: nat, d: nat) -> Result<nat, AmountParseError> {
    if value * 10 + d <= u64::MAX {
        Ok(value * 10 + d)
    } else {
        Err(AmountParseError::Overflow)
    }
}

/// Reads one more character.
pub open spec fn read_char(r: Reading, c: char) -> Result<Reading, AmountParseError> {
    match r.place {
        Place::Start => match digit_value(c) {
            Some(d) => if d == 0 {
                Ok(Reading { place: Place::LeadingZero, value: 0, after_dot: 0 })
            } else {
                Ok(Reading { place: Place::Whole, value: d, after_dot: 0 })
            },
            None => Err(AmountParseError::ExpectedDigit),
        },
        Place::LeadingZero => if c == '.' {
            Ok(Reading { place: Place::Fraction, value: r.value, after_dot: 0 })
        } else {
            Err(AmountParseError::ExpectedDot)
        },
        Place::Whole => match digit_value(c) {
            Some(d) => match appended(r.value, d) {
                Ok(value) => Ok(Reading { place: Place::Whole, value, after_dot: 0 }),
                Err(e) => Err(e),
            },
            None => if c == '.' {
                Ok(Reading { place: Place::Fraction, value: r.value, after_dot: 0 })
            } else {
                Err(AmountParseError::ExpectedDigitOrDot)
            },
        },
        Place::Fraction => if r.after_dot >= 6 {
            Err(AmountParseError::AtMostSixDecimals)
        } else {
            match digit_value(c) {
                Some(d) => match appended(r.value, d) {
                    Ok(value) => Ok(
                        Reading { place: Place::Fraction, value, after_dot: r.after_dot + 1 },
                    ),
                    Err(e) => Err(e),
                },
                None => Err(AmountParseError::ExpectedDigit),
            }
        },
    }
}

/// Reads a string from the left, up to the first character that cannot
/// follow.
pub open spec fn read_all(s: Seq<char>) -> Result<Reading, AmountParseError>
    decreases s.len(),
{
    if s.len() == 0 {
        Ok(Reading { place: Place::Start, value: 0, after_dot: 0 })
    } else {
        match read_all(s.drop_last()) {
            Ok(r) => read_char(r, s.last()),
            Err(e) => Err(e),
        }
    }
}

/// `value` with `count` zeros appended, unless that is no `u64`.
pub open spec fn scaled(value: nat, count: nat) -> Result<nat, AmountParseError>
    decreases count,
{
    if count == 0 {
        Ok(value)
    } else {
        match appended(value, 0) {
            Ok(more) => scaled(more, (count - 1) as nat),
            Err(e) => Err(e),
        }
    }
}

/// The amount that a finished reading stands for: its digits, filled up to
/// six decimals.
pub open spec fn finished(r: Reading) -> Result<nat, AmountParseError> {
    if r.place == Place::Start || (r.place == Place::Fraction && r.after_dot == 0) {
        Err(AmountParseError::ExpectedMore)
    } else {
        scaled(r.value, (6 - r.after_dot) as nat)
    }
}

/// The amount that a string denotes. The string has the form `n` or `n.m`,
/// where `n` is `0` or digits that begin with none, and `m` is one to six
/// digits; the amount is `n.m` units. Or the first reason why it denotes
/// none, found from the left.
pub open spec fn parsed_amount(s: Seq<char>) -> Result<nat, AmountParseError> {
    match read_all(s) {
        Ok(r) => finished(r),
        Err(e) => Err(e),
    }
}

/// The digit that a character is.
fn to_digit(c: char) -> (d: Option<u64>)
    ensures
        match d {
            Some(v) => digit_value(c) == Some(v as nat) && v <= 9,
            None => digit_value(c) is None,
        },
{
    if '0' <= c && c <= '9' {
        Some((c as u32 - '0' as u32) as u64)
    } else {
        None
    }
}

/// `value * 10 + d`, checked.
fn append_digit(value: u64, d: u64) -> (r: Result<u64, AmountParseError>)
    requires
        d <= 9,
    ensures
        match r {
            Ok(v) => appended(value as nat, d as nat) == Ok::<nat, AmountParseError>(v as nat),
            Err(e) => appended(value as nat, d as nat) == Err::<nat, AmountParseError>(e),
        },
{
    match value.checked_mul(10) {
        Some(tenfold) => match tenfold.checked_add(d) {
            Some(v) => Ok(v),
            None => Err(AmountParseError::Overflow),
        },
        None => Err(AmountParseError::Overflow),
    }
}

impl Amount {
    /// Parse from string in GTU units. The input string must be of the form
    /// `n[.m]` where `n` and `m` are both digits. The notation `[.m]`
    /// indicates that that part is optional.
    ///
    /// - if `n` starts with 0 then it must be 0
    /// - `m` can have at most 6 digits, and must have at least 1
    /// - both `n` and `m` must be non-negative.
    pub fn parse(v: &str) -> (r: Result<Amount, AmountParseError>)
        ensures
            match r {
                Ok(amount) => parsed_amount(v@) == Ok::<nat, AmountParseError>(
                    amount.microgtu as nat,
                ),
                Err(e) => parsed_amount(v@) == Err::<nat, AmountParseError>(e),
            },
    {
        let n = v.unicode_len();
        let mut microgtu: u64 = 0;
        let mut after_dot: u64 = 0;
        let mut place = Place::Start;
        let mut i: usize = 0;
        while i < n
            invariant
                i <= n,
                n == v@.len(),
                after_dot <= 6,
                read_all(v@.take(i as int)) == Ok::<Reading, AmountParseError>(
                    Reading { place, value: microgtu as nat, after_dot: after_dot as nat },
                ),
            decreases n - i,
        {
            let c = v.get_char(i);
            proof {
                assert(v@.take(i + 1).drop_last() =~= v@.take(i as int));
                assert(v@.take(i + 1).last() == c);
                if read_all(v@.take(i + 1)) is Err {
                    lemma_read_all_error_stays(v@, i + 1);
                }
            }
            match place {
                Place::Start => {
                    // looking at the first character.
                    match to_digit(c) {
                        Some(d) => {
                            if d == 0 {
                                place = Place::LeadingZero;
                            } else {
                                microgtu = d;
                                place = Place::Whole;
                            }
                        },
                        None => {
                            return Err(AmountParseError::ExpectedDigit);
                        },
                    }
                },
                Place::LeadingZero => {
                    // we want to be looking at a dot now
                    if c != '.' {
                        return Err(AmountParseError::ExpectedDot);
                    } else {
                        place = Place::Fraction;
                    }
                },
                Place::Whole => {
                    // we are reading a normal number until we hit the dot.
                    match to_digit(c) {
                        Some(d) => {
                            match append_digit(microgtu, d) {
                                Ok(value) => {
                                    microgtu = value;
                                },
                                Err(e) => {
                                    return Err(e);
                                },
                            }
                        },
                        None => {
                            if c == '.' {
                                place = Place::Fraction;
                            } else {
                                return Err(AmountParseError::ExpectedDigitOrDot);
                            }
                        },
                    }
                },
                Place::Fraction => {
                    // we're reading after the dot.
                    if after_dot >= 6 {
                        return Err(AmountParseError::AtMostSixDecimals);
                    }
                    match to_digit(c) {
                        Some(d) => {
                            match append_digit(microgtu, d) {
                                Ok(value) => {
                                    microgtu = value;
                                },
                                Err(e) => {
                                    return Err(e);
                                },
                            }
                            after_dot += 1;
                        },
                        None => {
                            return Err(AmountParseError::ExpectedDigit);
                        },
                    }
                },
            }
            i += 1;
        }
        assert(v@.take(n as int) =~= v@);
        if place == Place::Start || (place == Place::Fraction && after_dot == 0) {
            return Err(AmountParseError::ExpectedMore);
        }
        let mut k: u64 = after_dot;
        while k < 6
            invariant
                after_dot <= k <= 6,
                scaled(microgtu as nat, (6 - k) as nat) == parsed_amount(v@),
            decreases 6 - k,
        {
            match append_digit(microgtu, 0) {
                Ok(value) => {
                    microgtu = value;
                },
                Err(e) => {
                    return Err(e);
                },
            }
            k += 1;
        }
        Ok(Amount { microgtu })
    }
}

/// Once the reading of a prefix has failed, the reading of the whole fails
/// for the same reason.
proof fn lemma_read_all_error_stays(s: Seq<char>, i: int)
    requires
        0 <= i <= s.len(),
        read_all(s.take(i)) is Err,
    ensures
        read_all(s) == read_all(s.take(i)),
    decreases s.len() - i,
{
    if i < s.len() {
        assert(s.take(i + 1).drop_last() =~= s.take(i));
        lemma_read_all_error_stays(s, i + 1);
    } else {
        assert(s.take(i) =~= s);
    }
}

/// The character of a digit.
pub open spec fn digit_char(d: nat) -> char {
    ('0' as u32 + d) as char
}

/// The decimal digits of `n`, the first of them not zero unless `n` is.
pub open spec fn decimal(n: nat) -> Seq<char>
    decreases n,
{
    if n < 10 {
        seq![digit_char(n)]
    } else {
        decimal(n / 10).push(digit_char(n % 10))
    }
}

/// The last `width` decimal digits of `n`, with zeros in front where `n` has
/// fewer.
pub open spec fn padded(n: nat, width: nat) -> Seq<char>
    decreases width,
{
    if width == 0 {
        Seq::empty()
    } else {
        padded(n / 10, (width - 1) as nat).push(digit_char(n % 10))
    }
}

/// The notation of an amount: its whole units, and behind a dot the six
/// digits of the rest unless the rest is nothing.
pub open spec fn formatted_amount(microgtu: nat) -> Seq<char> {
    let high = microgtu / 1_000_000;
    let low = microgtu % 1_000_000;
    if low == 0 {
        decimal(high)
    } else {
        decimal(high) + seq!['.'] + padded(low, 6)
    }
}

/// `10` to the power `k`.
spec fn pow10(k: nat) -> nat
    decreases k,
{
    if k == 0 {
        1
    } else {
        10 * pow10((k - 1) as nat)
    }
}

/// `format!` of an integer with `{}`: its decimal digits, none in front
/// that is zero.
#[verifier::external_body]
fn decimal_string(n: u64) -> (s: String)
    ensures
        s@ == decimal(n as nat),
{
    format!("{}", n)
}

/// `format!` of an integer below a million with `{:06}`: six decimal
/// digits, zeros in front.
#[verifier::external_body]
fn six_digit_string(n: u64) -> (s: String)
    requires
        n < 1_000_000,
    ensures
        s@ == padded(n as nat, 6),
{
    format!("{:06}", n)
}

impl AmountParseError {
    /// What this error says.
    pub open spec fn message(self) -> Seq<char> {
        match self {
            AmountParseError::Overflow => "Amount overflow."@,
            AmountParseError::ExpectedDot => "Expected dot."@,
            AmountParseError::ExpectedDigit => "Expected digit."@,
            AmountParseError::ExpectedMore => "Expected more input."@,
            AmountParseError::ExpectedDigitOrDot => "Expected digit or dot."@,
            AmountParseError::AtMostSixDecimals => "Amounts can have at most six decimals."@,
        }
    }

    /// What this error says.
    pub fn to_string(&self) -> (s: String)
        ensures
            s@ == self.message(),
    {
        match self {
            AmountParseError::Overflow => "Amount overflow.".to_owned(),
            AmountParseError::ExpectedDot => "Expected dot.".to_owned(),
            AmountParseError::ExpectedDigit => "Expected digit.".to_owned(),
            AmountParseError::ExpectedMore => "Expected more input.".to_owned(),
            AmountParseError::ExpectedDigitOrDot => "Expected digit or dot.".to_owned(),
            AmountParseError::AtMostSixDecimals => {
                "Amounts can have at most six decimals.".to_owned()
            },
        }
    }
}

impl Amount {
    /// The notation of the amount in whole units: `n` if it is a whole
    /// number of units, else `n.m` with six digits behind the dot.
    pub fn to_string(&self) -> (s: String)
        ensures
            s@ == formatted_amount(self.microgtu as nat),
            parsed_amount(s@) == Ok::<nat, AmountParseError>(self.microgtu as nat),
    {
        let high = self.microgtu / 1_000_000;
        let low = self.microgtu % 1_000_000;
        proof {
            lemma_notation_denotes_amount(self.microgtu as nat);
        }
        if low == 0 {
            decimal_string(high)
        } else {
            proof {
                reveal_strlit(".");
                assert("."@ =~= seq!['.']);
            }
            let whole = decimal_string(high).concat(".");
            let rest = six_digit_string(low);
            whole.concat(rest.as_str())
        }
    }

    /// The sum of two amounts, or `None` if it is no `u64`.
    pub open spec fn sum(self, rhs: Amount) -> Option<Amount> {
        if self.microgtu + rhs.microgtu <= u64::MAX {
            Some(Amount { microgtu: (self.microgtu + rhs.microgtu) as u64 })
        } else {
            None
        }
    }
}

impl From<u8> for KeyIndex {
    fn from(index: u8) -> (key: KeyIndex) {
        KeyIndex(index)
    }
}

impl FromSpecImpl<u8> for KeyIndex {
    open spec fn obeys_from_spec() -> bool {
        true
    }

    open spec fn from_spec(index: u8) -> KeyIndex {
        KeyIndex(index)
    }
}

impl From<KeyIndex> for u8 {
    fn from(key: KeyIndex) -> (index: u8) {
        key.0
    }
}

impl FromSpecImpl<KeyIndex> for u8 {
    open spec fn obeys_from_spec() -> bool {
        true
    }

    open spec fn from_spec(key: KeyIndex) -> u8 {
        key.0
    }
}

impl From<u8> for CredentialIndex {
    fn from(index: u8) -> (credential: CredentialIndex) {
        CredentialIndex { index }
    }
}

impl FromSpecImpl<u8> for CredentialIndex {
    open spec fn obeys_from_spec() -> bool {
        true
    }

    open spec fn from_spec(index: u8) -> CredentialIndex {
        CredentialIndex { index }
    }
}

impl From<CredentialIndex> for u8 {
    fn from(credential: CredentialIndex) -> (index: u8) {
        credential.index
    }
}

impl FromSpecImpl<CredentialIndex> for u8 {
    open spec fn obeys_from_spec() -> bool {
        true
    }

    open spec fn from_spec(credential: CredentialIndex) -> u8 {
        credential.index
    }
}

impl From<Amount> for u64 {
    fn from(x: Amount) -> (microgtu: u64) {
        x.microgtu
    }
}

impl FromSpecImpl<Amount> for u64 {
    open spec fn obeys_from_spec() -> bool {
        true
    }

    open spec fn from_spec(x: Amount) -> u64 {
        x.microgtu
    }
}

impl From<u64> for Amount {
    fn from(microgtu: u64) -> (amount: Amount) {
        Amount { microgtu }
    }
}

impl FromSpecImpl<u64> for Amount {
    open spec fn obeys_from_spec() -> bool {
        true
    }

    open spec fn from_spec(microgtu: u64) -> Amount {
        Amount { microgtu }
    }
}

/// Add two amounts together, checking for overflow.
impl core::ops::Add for Amount {
    type Output = Option<Amount>;

    fn add(self, rhs: Self) -> (total: Option<Amount>) {
        match self.microgtu.checked_add(rhs.microgtu) {
            Some(microgtu) => Some(Amount { microgtu }),
            None => None,
        }
    }
}

impl AddSpecImpl for Amount {
    open spec fn obeys_add_spec() -> bool {
        true
    }

    open spec fn add_req(self, rhs: Amount) -> bool {
        true
    }

    open spec fn add_spec(self, rhs: Amount) -> Option<Amount> {
        self.sum(rhs)
    }
}

/// Add an amount to an optional amount, propagating `None`.
impl core::ops::Add<Option<Amount>> for Amount {
    type Output = Option<Amount>;

    fn add(self, rhs: Option<Amount>) -> (total: Option<Amount>) {
        match rhs {
            Some(rhs) => self + rhs,
            None => None,
        }
    }
}

impl AddSpecImpl<Option<Amount>> for Amount {
    open spec fn obeys_add_spec() -> bool {
        true
    }

    open spec fn add_req(self, rhs: Option<Amount>) -> bool {
        true
    }

    open spec fn add_spec(self, rhs: Option<Amount>) -> Option<Amount> {
        match rhs {
            Some(rhs) => self.sum(rhs),
            None => None,
        }
    }
}

impl std::str::FromStr for Amount {
    type Err = AmountParseError;

    /// The amount that the string denotes, or the first reason why it
    /// denotes none.
    fn from_str(v: &str) -> (r: Result<Self, Self::Err>)
        ensures
            match r {
                Ok(amount) => parsed_amount(v@) == Ok::<nat, AmountParseError>(
                    amount.microgtu as nat,
                ),
                Err(e) => parsed_amount(v@) == Err::<nat, AmountParseError>(e),
            },
    {
        Amount::parse(v)
    }
}

impl TransactionTime {
    /// The time `seconds` after the unix epoch.
    pub fn from_seconds(seconds: u64) -> (time: Self)
        ensures
            time.seconds == seconds,
    {
        Self { seconds }
    }
}

impl From<u64> for TransactionTime {
    fn from(seconds: u64) -> (time: Self) {
        Self { seconds }
    }
}

impl FromSpecImpl<u64> for TransactionTime {
    open spec fn obeys_from_spec() -> bool {
        true
    }

    open spec fn from_spec(seconds: u64) -> TransactionTime {
        TransactionTime { seconds }
    }
}

impl From<u64> for Timestamp {
    fn from(millis: u64) -> (time: Self) {
        Self { millis }
    }
}

impl FromSpecImpl<u64> for Timestamp {
    open spec fn obeys_from_spec() -> bool {
        true
    }

    open spec fn from_spec(millis: u64) -> Timestamp {
        Timestamp { millis }
    }
}

/// The reading of `decimal(n)`: a leading zero for zero, else the whole
/// part `n`.
proof fn lemma_read_decimal(n: nat)
    requires
        n <= u64::MAX,
    ensures
        read_all(decimal(n)) == Ok::<Reading, AmountParseError>(
            Reading {
                place: if n == 0 {
                    Place::LeadingZero
                } else {
                    Place::Whole
                },
                value: n,
                after_dot: 0,
            },
        ),
    decreases n,
{
    if n < 10 {
        let s = seq![digit_char(n)];
        assert(s.drop_last() =~= Seq::<char>::empty());
        assert(read_all(s.drop_last()) == Ok::<Reading, AmountParseError>(
            Reading { place: Place::Start, value: 0, after_dot: 0 },
        ));
        assert(digit_value(digit_char(n)) == Some(n));
    } else {
        lemma_read_decimal(n / 10);
        let s = decimal(n);
        assert(s.drop_last() =~= decimal(n / 10));
        assert(s.last() == digit_char(n % 10));
        assert(digit_value(digit_char(n % 10)) == Some(n % 10));
    }
}

/// The reading of `width` digits behind the dot.
proof fn lemma_read_padded(s: Seq<char>, before: Reading, x: nat, width: nat)
    requires
        read_all(s) == Ok::<Reading, AmountParseError>(before),
        before.place == Place::Fraction,
        before.after_dot + width <= 6,
        x < pow10(width),
        before.value * pow10(width) + x <= u64::MAX,
    ensures
        read_all(s + padded(x, width)) == Ok::<Reading, AmountParseError>(
            Reading {
                place: Place::Fraction,
                value: before.value * pow10(width) + x,
                after_dot: before.after_dot + width,
            },
        ),
    decreases width,
{
    if width == 0 {
        assert(s + padded(x, width) =~= s);
        assert(before.value * pow10(width) + x == before.value) by (nonlinear_arith)
            requires
                pow10(width) == 1,
                x == 0,
        ;
    } else {
        let fewer = (width - 1) as nat;
        let v = before.value;
        let p = pow10(fewer);
        assert(pow10(width) == 10 * p);
        assert(x / 10 < p);
        assert(v * pow10(width) + x == (v * p + x / 10) * 10 + x % 10) by (nonlinear_arith)
            requires
                pow10(width) == 10 * p,
        ;
        lemma_read_padded(s, before, x / 10, fewer);
        let t = s + padded(x, width);
        assert(t.drop_last() =~= s + padded(x / 10, fewer));
        assert(t.last() == digit_char(x % 10));
        assert(digit_value(digit_char(x % 10)) == Some(x % 10));
        let earlier = Reading {
            place: Place::Fraction,
            value: v * p + x / 10,
            after_dot: before.after_dot + fewer,
        };
        assert(read_all(t.drop_last()) == Ok::<Reading, AmountParseError>(earlier));
        assert(appended(earlier.value, x % 10) == Ok::<nat, AmountParseError>(
            v * pow10(width) + x,
        ));
    }
}

/// `value` with `count` zeros appended is `value` times a power of ten.
proof fn lemma_scaled(value: nat, count: nat)
    requires
        value * pow10(count) <= u64::MAX,
    ensures
        scaled(value, count) == Ok::<nat, AmountParseError>(value * pow10(count)),
    decreases count,
{
    if count > 0 {
        let fewer = (count - 1) as nat;
        assert(value * pow10(count) == (value * 10) * pow10(fewer)) by (nonlinear_arith)
            requires
                pow10(count) == 10 * pow10(fewer),
        ;
        lemma_pow10_positive(fewer);
        assert(value * 10 <= (value * 10) * pow10(fewer)) by (nonlinear_arith)
            requires
                pow10(fewer) >= 1,
        ;
        lemma_scaled(value * 10, fewer);
    } else {
        assert(value * pow10(count) == value) by (nonlinear_arith)
            requires
                pow10(count) == 1,
        ;
    }
}

proof fn lemma_pow10_positive(k: nat)
    ensures
        pow10(k) >= 1,
    decreases k,
{
    if k > 0 {
        lemma_pow10_positive((k - 1) as nat);
    }
}

/// The notation of an amount denotes that amount: parsing inverts
/// formatting.
pub proof fn lemma_notation_denotes_amount(microgtu: nat)
    requires
        microgtu <= u64::MAX,
    ensures
        parsed_amount(formatted_amount(microgtu)) == Ok::<nat, AmountParseError>(microgtu),
{
    let high = microgtu / 1_000_000;
    let low = microgtu % 1_000_000;
    assert(pow10(6) == 1_000_000) by {
        reveal_with_fuel(pow10, 7);
    }
    lemma_read_decimal(high);
    if low == 0 {
        lemma_scaled(high, 6);
    } else {
        let whole = decimal(high);
        let dotted = whole + seq!['.'];
        assert(dotted.drop_last() =~= whole);
        assert(dotted.last() == '.');
        let before = Reading { place: Place::Fraction, value: high, after_dot: 0 };
        assert(read_all(dotted) == Ok::<Reading, AmountParseError>(before));
        lemma_read_padded(dotted, before, low, 6);
        assert(scaled(microgtu, 0) == Ok::<nat, AmountParseError>(microgtu));
    }
}

} // verus!

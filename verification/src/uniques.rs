//! Salted, privacy-preserving unique visitor estimation.
use cardinality_estimator_safe::{Element, Sketch};
use rand::RngCore;
use vstd::bytes::{spec_u64_from_le_bytes, u64_from_le_bytes};
use vstd::prelude::*;
use vstd::utf8::encode_utf8;

use crate::config::SaltRotation;
use crate::text::{decimal, digit_char, push_char, push_str, string_of, zero_padded, zero_padded_chars};

verus! {

// ---------------------------------------------------------------------------
// Calendar fields and salt periods
// ---------------------------------------------------------------------------
/// Calendar fields of an instant in UTC.
#[derive(Clone, Copy, Debug, PartialEq, Eq, Structural)]
pub struct DateParts {
    pub year: i16,
    pub month: i8,
    pub day: i8,
    pub hour: i8,
}

impl DateParts {
    /// The ranges of a civil date and hour.
    pub open spec fn valid(self) -> bool {
        &&& -9999 <= self.year <= 9999
        &&& 1 <= self.month <= 12
        &&& 1 <= self.day <= 31
        &&& 0 <= self.hour <= 23
    }
}

/// A signed integer written in decimal with at least `width` characters,
/// the sign included, padded with zeros after the sign (`{:0width$}`).
pub open spec fn padded_signed(n: int, width: nat) -> Seq<char> {
    if n < 0 {
        seq!['-'] + zero_padded((-n) as nat, (width - 1) as nat)
    } else {
        zero_padded(n as nat, width)
    }
}

/// The identifier of the salt period that contains an instant: `YYYY-MM-DD`
/// for daily rotation, `YYYY-MM-DDTHH` for hourly rotation.
pub open spec fn key_text(now: DateParts, rotation: SaltRotation) -> Seq<char> {
    let day = padded_signed(now.year as int, 4) + seq!['-'] + padded_signed(now.month as int, 2)
        + seq!['-'] + padded_signed(now.day as int, 2);
    match rotation {
        SaltRotation::Daily => day,
        SaltRotation::Hourly => day + seq!['T'] + padded_signed(now.hour as int, 2),
    }
}

fn push_padded(out: &mut Vec<char>, n: i64, width: usize)
    requires
        -0x1_0000_0000 < n < 0x1_0000_0000,
        1 <= width <= 4,
    ensures
        final(out)@ == old(out)@ + padded_signed(n as int, width as nat),
{
    let digits = if n < 0 {
        out.push('-');
        zero_padded_chars((-n) as u64, width - 1)
    } else {
        zero_padded_chars(n as u64, width)
    };
    let ghost mid = out@;
    let mut i: usize = 0;
    while i < digits.len()
        invariant
            i <= digits.len(),
            out@ == mid + digits@.take(i as int),
        decreases digits.len() - i,
    {
        out.push(digits[i]);
        assert(digits@.take(i + 1) =~= digits@.take(i as int).push(digits@[i as int]));
        i += 1;
    }
    assert(digits@.take(digits.len() as int) =~= digits@);
    assert(out@ =~= old(out)@ + padded_signed(n as int, width as nat));
}

/// Formats the salt period identifier for the given UTC calendar fields.
pub fn salt_key(now: &DateParts, rotation: SaltRotation) -> (r: String)
    ensures
        r@ == key_text(*now, rotation),
{
    let mut out: Vec<char> = Vec::new();
    push_padded(&mut out, now.year as i64, 4);
    out.push('-');
    push_padded(&mut out, now.month as i64, 2);
    out.push('-');
    push_padded(&mut out, now.day as i64, 2);
    let ghost day = out@;
    assert(day =~= padded_signed(now.year as int, 4) + seq!['-'] + padded_signed(
        now.month as int,
        2,
    ) + seq!['-'] + padded_signed(now.day as int, 2));
    match rotation {
        SaltRotation::Daily => {},
        SaltRotation::Hourly => {
            out.push('T');
            push_padded(&mut out, now.hour as i64, 2);
            assert(out@ =~= day + seq!['T'] + padded_signed(now.hour as int, 2));
        },
    }
    string_of(&out)
}

/// UTC calendar fields of a Unix second, when it lies within the supported
/// range of instants.
pub uninterp spec fn utc_date_of(second: i64) -> Option<DateParts>;

/// `jiff::Timestamp::from_second` followed by `Offset::UTC.to_datetime`:
/// the UTC calendar fields of a Unix second, or `None` when the second lies
/// outside jiff's supported range. The fields of a civil date time lie in
/// their documented ranges.
#[verifier::external_body]
fn utc_date(second: i64) -> (r: Option<DateParts>)
    ensures
        r == utc_date_of(second),
        r matches Some(p) ==> p.valid(),
{
    match jiff::Timestamp::from_second(second) {
        Ok(ts) => {
            let dt = jiff::tz::Offset::UTC.to_datetime(ts);
            Some(DateParts { year: dt.year(), month: dt.month(), day: dt.day(), hour: dt.hour() })
        },
        Err(_) => None,
    }
}

/// `jiff::Timestamp::now().as_second()`: the current Unix second. It comes
/// from a timestamp jiff could represent, so its calendar fields exist.
/// Which second it is depends on the clock and is not stated.
#[verifier::external_body]
fn unix_seconds_now() -> (r: i64)
    ensures
        utc_date_of(r) is Some,
{
    jiff::Timestamp::now().as_second()
}

/// The salt period identifier of the current instant.
pub fn current_salt_key(rotation: SaltRotation) -> (r: String)
    ensures
        exists|second: i64|
            #![trigger utc_date_of(second)]
            utc_date_of(second) is Some && r@ == key_text(utc_date_of(second)->0, rotation),
{
    let second = unix_seconds_now();
    match utc_date(second) {
        Some(parts) => salt_key(&parts, rotation),
        None => {
            proof {
                assert(false);
            }
            String::new()
        },
    }
}

/// The number a run of decimal digit characters denotes.
pub open spec fn digits_value(s: Seq<char>) -> int
    decreases s.len(),
{
    if s.len() == 0 {
        0
    } else {
        digits_value(s.drop_last()) * 10 + ((s.last() as int) - ('0' as int))
    }
}

/// Whether every character is an ASCII digit.
pub open spec fn all_digits(s: Seq<char>) -> bool {
    forall|i: int| 0 <= i < s.len() ==> '0' <= #[trigger] s[i] <= '9'
}

proof fn lemma_digit_char(d: nat)
    requires
        d < 10,
    ensures
        digit_char(d) as int == ('0' as int) + d,
        '0' <= digit_char(d) <= '9',
{
    assert((('0' as u32) + d) as char as int == 48 + d);
}

proof fn lemma_decimal_digits(n: nat)
    ensures
        digits_value(decimal(n)) == n,
        all_digits(decimal(n)),
        n < 10 ==> decimal(n).len() == 1,
        n < 100 ==> decimal(n).len() <= 2,
        n < 1000 ==> decimal(n).len() <= 3,
        n < 10000 ==> decimal(n).len() <= 4,
    decreases n,
{
    lemma_digit_char(n % 10);
    if n < 10 {
        let d = decimal(n);
        assert(d.drop_last() =~= Seq::<char>::empty());
        assert(digits_value(d.drop_last()) == 0);
        assert(d.last() == digit_char(n));
        assert(digits_value(d) == (d.last() as int) - ('0' as int));
    }
    if n >= 10 {
        lemma_decimal_digits(n / 10);
        let d = decimal(n);
        assert(d.drop_last() =~= decimal(n / 10));
        assert(d.last() == digit_char((n % 10) as nat));
        assert(n == (n / 10) * 10 + n % 10);
        assert(digits_value(d) == digits_value(d.drop_last()) * 10 + ((d.last() as int) - ('0' as int)));
        assert(digits_value(d.drop_last()) == n / 10);
        assert forall|i: int| 0 <= i < d.len() implies '0' <= #[trigger] d[i] <= '9' by {
            if i < d.len() - 1 {
                assert(d[i] == decimal(n / 10)[i]);
            }
        }
    }
}

proof fn lemma_zeros_value(k: nat)
    ensures
        digits_value(Seq::new(k, |i: int| '0')) == 0,
    decreases k,
{
    if k > 0 {
        assert(Seq::new(k, |i: int| '0').drop_last() =~= Seq::new((k - 1) as nat, |i: int| '0'));
        lemma_zeros_value((k - 1) as nat);
    }
}

proof fn lemma_value_append(a: Seq<char>, b: Seq<char>)
    requires
        digits_value(a) == 0,
    ensures
        digits_value(a + b) == digits_value(b),
    decreases b.len(),
{
    if b.len() == 0 {
        assert(a + b =~= a);
    } else {
        assert((a + b).drop_last() =~= a + b.drop_last());
        assert((a + b).last() == b.last());
        lemma_value_append(a, b.drop_last());
    }
}

/// A zero-padded decimal denotes its number, in digits only, at exactly
/// its width when the number fits.
proof fn lemma_zero_padded(n: nat, width: nat)
    requires
        1 <= width <= 4,
        width == 1 ==> n < 10,
        width == 2 ==> n < 100,
        width == 3 ==> n < 1000,
        width == 4 ==> n < 10000,
    ensures
        digits_value(zero_padded(n, width)) == n,
        all_digits(zero_padded(n, width)),
        zero_padded(n, width).len() == width,
{
    lemma_decimal_digits(n);
    let d = decimal(n);
    if d.len() < width {
        let z = Seq::new((width - d.len()) as nat, |i: int| '0');
        lemma_zeros_value((width - d.len()) as nat);
        lemma_value_append(z, d);
        assert forall|i: int| 0 <= i < (z + d).len() implies '0' <= #[trigger] (z + d)[i] <= '9' by {
            if i >= z.len() {
                assert((z + d)[i] == d[i - z.len()]);
            }
        }
    }
}

proof fn lemma_padded_signed(n: int, width: nat)
    requires
        2 <= width <= 4,
        width == 2 ==> 0 <= n < 100,
        width == 4 ==> -10000 < n < 10000,
        width == 3 ==> false,
    ensures
        n >= 0 ==> all_digits(padded_signed(n, width)) && digits_value(padded_signed(n, width)) == n
            && padded_signed(n, width).len() == width,
        n < 0 ==> padded_signed(n, width)[0] == '-' && all_digits(padded_signed(n, width).drop_first())
            && digits_value(padded_signed(n, width).drop_first()) == -n,
        padded_signed(n, width).len() >= 1,
{
    if n >= 0 {
        lemma_zero_padded(n as nat, width);
    } else {
        lemma_decimal_digits((-n) as nat);
        let d = decimal((-n) as nat);
        let zp = zero_padded((-n) as nat, (width - 1) as nat);
        assert(padded_signed(n, width).drop_first() =~= zp);
        if d.len() < width - 1 {
            let z = Seq::new((width - 1 - d.len()) as nat, |i: int| '0');
            lemma_zeros_value((width - 1 - d.len()) as nat);
            lemma_value_append(z, d);
            assert forall|i: int| 0 <= i < (z + d).len() implies '0' <= #[trigger] (z + d)[i] <= '9' by {
                if i >= z.len() {
                    assert((z + d)[i] == d[i - z.len()]);
                }
            }
        }
    }
}

proof fn lemma_padded_year_injective(a: int, b: int)
    requires
        -10000 < a < 10000,
        -10000 < b < 10000,
        padded_signed(a, 4) == padded_signed(b, 4),
    ensures
        a == b,
{
    lemma_padded_signed(a, 4);
    lemma_padded_signed(b, 4);
    let s = padded_signed(a, 4);
    if a >= 0 && b < 0 {
        assert('0' <= s[0] <= '9');
    } else if a < 0 && b >= 0 {
        assert('0' <= padded_signed(b, 4)[0] <= '9');
    }
}

proof fn lemma_split_day(
    ya: Seq<char>,
    ma: Seq<char>,
    da: Seq<char>,
    yb: Seq<char>,
    mb: Seq<char>,
    db: Seq<char>,
)
    requires
        ma.len() == 2,
        mb.len() == 2,
        da.len() == 2,
        db.len() == 2,
        ya + seq!['-'] + ma + seq!['-'] + da == yb + seq!['-'] + mb + seq!['-'] + db,
    ensures
        ya == yb,
        ma == mb,
        da == db,
{
    let a = ya + seq!['-'] + ma + seq!['-'] + da;
    let b = yb + seq!['-'] + mb + seq!['-'] + db;
    let n = a.len();
    assert(da =~= a.subrange(n - 2, n as int));
    assert(db =~= b.subrange(n - 2, n as int));
    assert(ma =~= a.subrange(n - 5, n - 3));
    assert(mb =~= b.subrange(n - 5, n - 3));
    assert(ya =~= a.subrange(0, n - 6));
    assert(yb =~= b.subrange(0, n - 6));
}

proof fn lemma_split_hour(da: Seq<char>, ha: Seq<char>, db: Seq<char>, hb: Seq<char>)
    requires
        ha.len() == 2,
        hb.len() == 2,
        da + seq!['T'] + ha == db + seq!['T'] + hb,
    ensures
        da == db,
        ha == hb,
{
    let a = da + seq!['T'] + ha;
    let b = db + seq!['T'] + hb;
    let n = a.len();
    assert(ha =~= a.subrange(n - 2, n as int));
    assert(hb =~= b.subrange(n - 2, n as int));
    assert(da =~= a.subrange(0, n - 3));
    assert(db =~= b.subrange(0, n - 3));
}

/// Distinct calendar days have distinct daily salt periods, and distinct
/// hours distinct hourly ones: a salt never spans two days (or hours).
pub proof fn salt_periods_are_distinct(a: DateParts, b: DateParts, rotation: SaltRotation)
    requires
        a.valid(),
        b.valid(),
        key_text(a, rotation) == key_text(b, rotation),
    ensures
        a.year == b.year,
        a.month == b.month,
        a.day == b.day,
        rotation == SaltRotation::Hourly ==> a.hour == b.hour,
{
    lemma_padded_signed(a.year as int, 4);
    lemma_padded_signed(b.year as int, 4);
    lemma_padded_signed(a.month as int, 2);
    lemma_padded_signed(b.month as int, 2);
    lemma_padded_signed(a.day as int, 2);
    lemma_padded_signed(b.day as int, 2);
    lemma_padded_signed(a.hour as int, 2);
    lemma_padded_signed(b.hour as int, 2);
    let ya = padded_signed(a.year as int, 4);
    let yb = padded_signed(b.year as int, 4);
    let ma = padded_signed(a.month as int, 2);
    let mb = padded_signed(b.month as int, 2);
    let da = padded_signed(a.day as int, 2);
    let db = padded_signed(b.day as int, 2);
    let day_a = ya + seq!['-'] + ma + seq!['-'] + da;
    let day_b = yb + seq!['-'] + mb + seq!['-'] + db;
    if rotation == SaltRotation::Hourly {
        lemma_split_hour(day_a, padded_signed(a.hour as int, 2), day_b, padded_signed(b.hour as int, 2));
    }
    lemma_split_day(ya, ma, da, yb, mb, db);
    lemma_padded_year_injective(a.year as int, b.year as int);
}

// ---------------------------------------------------------------------------
// Hashing and salts
// ---------------------------------------------------------------------------
/// The SHA-256 digest of a byte sequence.
pub uninterp spec fn sha256_digest(data: Seq<u8>) -> Seq<u8>;

/// `hmac_sha256::Hash::hash`: the 32-byte SHA-256 digest of `data`.
#[verifier::external_body]
fn sha256(data: &[u8]) -> (r: Vec<u8>)
    ensures
        r@ == sha256_digest(data@),
        r@.len() == 32,
{
    hmac_sha256::Hash::hash(data).to_vec()
}

/// The lowercase hexadecimal digit of a value below 16.
pub open spec fn hex_digit(v: int) -> char {
    if v < 10 {
        (('0' as int) + v) as char
    } else {
        (('a' as int) + v - 10) as char
    }
}

/// Lowercase hexadecimal text of bytes: two digits per byte, high nibble
/// first.
pub open spec fn hex_text(bytes: Seq<u8>) -> Seq<char>
    decreases bytes.len(),
{
    if bytes.len() == 0 {
        Seq::empty()
    } else {
        hex_text(bytes.drop_last()) + seq![
            hex_digit(bytes.last() as int / 16),
            hex_digit(bytes.last() as int % 16),
        ]
    }
}

/// `data_encoding::HEXLOWER.encode`: lowercase hexadecimal text of `bytes`,
/// two digits per byte, most significant nibble first.
#[verifier::external_body]
fn hex_lower(bytes: &[u8]) -> (r: String)
    ensures
        r@ == hex_text(bytes@),
{
    data_encoding::HEXLOWER.encode(bytes)
}

/// `rand::RngCore::fill_bytes` on the thread-local generator: 32 random
/// bytes. Which bytes come back is chance and is not stated.
#[verifier::external_body]
fn random_bytes() -> (r: Vec<u8>)
    ensures
        r@.len() == 32,
{
    let mut bytes = [0u8; 32];
    rand::rng().fill_bytes(&mut bytes);
    bytes.to_vec()
}

/// Generates the secret salt of a period: the lowercase hex SHA-256 of the
/// period identifier followed by 32 random bytes.
pub fn generate_salt(key: &str) -> (r: String)
    ensures
        exists|random: Seq<u8>|
            #![trigger sha256_digest(encode_utf8(key@) + random)]
            random.len() == 32 && r@ == hex_text(sha256_digest(encode_utf8(key@) + random)),
{
    let random = random_bytes();
    let mut data: Vec<u8> = Vec::new();
    let kb = key.as_bytes();
    let mut i: usize = 0;
    while i < kb.len()
        invariant
            i <= kb@.len(),
            data@ == kb@.take(i as int),
        decreases kb@.len() - i,
    {
        data.push(kb[i]);
        assert(kb@.take(i + 1) =~= kb@.take(i as int).push(kb@[i as int]));
        i += 1;
    }
    let mut j: usize = 0;
    while j < random.len()
        invariant
            j <= random@.len(),
            data@ == kb@ + random@.take(j as int),
        decreases random@.len() - j,
    {
        data.push(random[j]);
        assert(random@.take(j + 1) =~= random@.take(j as int).push(random@[j as int]));
        j += 1;
    }
    assert(kb@.take(kb@.len() as int) =~= kb@);
    assert(random@.take(random@.len() as int) =~= random@);
    let digest = sha256(data.as_slice());
    let r = hex_lower(digest.as_slice());
    assert(random@.len() == 32 && r@ == hex_text(sha256_digest(encode_utf8(key@) + random@)));
    r
}

/// The text hashed for one visitor: `ip|user_agent|salt`.
pub open spec fn visitor_text(ip: Seq<char>, user_agent: Seq<char>, salt: Seq<char>) -> Seq<char> {
    ip + seq!['|'] + user_agent + seq!['|'] + salt
}

/// The visitor hash: the first eight digest bytes, little-endian.
pub open spec fn visitor_hash(ip: Seq<char>, user_agent: Seq<char>, salt: Seq<char>) -> u64 {
    spec_u64_from_le_bytes(sha256_digest(encode_utf8(visitor_text(ip, user_agent, salt))).take(8))
}

/// The sketch element a visitor is counted as in a salt period.
pub open spec fn visitor_element(ip: Seq<char>, user_agent: Seq<char>, salt: Seq<char>) -> u32 {
    element_of(visitor_hash(ip, user_agent, salt))
}

/// Hashes an IP address and user agent under the period's salt.
pub fn hash_visitor(ip: &str, user_agent: &str, salt: &str) -> (r: u64)
    ensures
        r == visitor_hash(ip@, user_agent@, salt@),
{
    let mut text = String::new();
    push_str(&mut text, ip);
    push_char(&mut text, '|');
    push_str(&mut text, user_agent);
    push_char(&mut text, '|');
    push_str(&mut text, salt);
    assert(text@ =~= visitor_text(ip@, user_agent@, salt@));
    let digest = sha256(text.as_str().as_bytes());
    let mut first: Vec<u8> = Vec::new();
    let mut i: usize = 0;
    while i < 8
        invariant
            i <= 8,
            digest@.len() == 32,
            first@ == digest@.take(i as int),
        decreases 8 - i,
    {
        first.push(digest[i]);
        assert(digest@.take(i + 1) =~= digest@.take(i as int).push(digest@[i as int]));
        i += 1;
    }
    u64_from_le_bytes(first.as_slice())
}

// ---------------------------------------------------------------------------
// The sketch
// ---------------------------------------------------------------------------
#[verifier::external_type_specification]
#[verifier::external_body]
pub struct ExSketch<const P: usize, const W: usize>(Sketch<P, W>);

/// The number of trailing zero bits of `x` (64 for zero), as
/// `u64::trailing_zeros` counts them.
pub open spec fn trailing_zeros(x: u64) -> nat
    decreases x,
{
    if x == 0 {
        64
    } else if x % 2 == 1 {
        0
    } else {
        1 + trailing_zeros(x / 2)
    }
}

/// The element a sketch with 14 index bits and 6 rank bits keeps for a
/// hash, as `Element::from_hashed` encodes it: the low 25 bits of the hash
/// as index, shifted above a rank of one more than the trailing zeros of the
/// complemented hash's bits from the 14th up.
pub open spec fn element_of(hash: u64) -> u32 {
    let idx: u32 = (hash as u32) & 0x1ff_ffffu32;
    let rank: u32 = (trailing_zeros(!hash >> 14u64) + 1) as u32;
    (idx << 6u32) | rank
}

/// The distinct encoded elements a sketch holds while it keeps them one by
/// one: a well-formed small or array sketch, with at most 128 of them. A
/// sketch in register form, or a malformed one restored from a file (with
/// repeated or zero elements), is read as an infinite set, so no clause
/// guarded by a finite set of at most 128 elements speaks of it.
pub uninterp spec fn sketch_elements(s: Sketch<14, 6>) -> Set<u32>;

/// The cardinality a sketch estimates.
pub uninterp spec fn sketch_estimate(s: Sketch<14, 6>) -> nat;

/// Whether a sketch holding `before` holds `after` once `e` was inserted:
/// the insertion is stated while at most 128 elements result, the limit up
/// to which the sketch keeps its elements one by one.
pub open spec fn inserted_into(before: Set<u32>, e: u32, after: Set<u32>) -> bool {
    before.finite() && before.insert(e).len() <= 128 ==> after == before.insert(e)
}

/// `Sketch::default`: an empty sketch, holding no elements.
#[verifier::external_body]
fn empty_sketch() -> (r: Sketch<14, 6>)
    ensures
        sketch_elements(r) == Set::<u32>::empty(),
{
    Sketch::default()
}

/// `Sketch::insert` of `Element::from_hashed(hash)`: the small and array
/// representations add the encoded element unless they hold it already,
/// switching to registers only when a 129th element arrives. Up to 128
/// elements the held set is the old one with the element added, and when
/// the element is held already the sketch is left exactly as it was. Of the
/// register representation nothing is stated.
#[verifier::external_body]
fn sketch_insert(s: &mut Sketch<14, 6>, hash: u64)
    ensures
        inserted_into(sketch_elements(*old(s)), element_of(hash), sketch_elements(*final(s))),
        sketch_elements(*old(s)).finite() && sketch_elements(*old(s)).len() <= 128
            && sketch_elements(*old(s)).contains(element_of(hash)) ==> *final(s) == *old(s),
{
    s.insert(Element::from_hashed(hash))
}

/// `Sketch::estimate`: the estimated cardinality. While the sketch holds
/// its elements one by one (at most 128), it counts them exactly; beyond
/// that it is the HyperLogLog estimate, of which nothing more is stated.
#[verifier::external_body]
fn sketch_estimate_of(s: &Sketch<14, 6>) -> (r: usize)
    ensures
        r == sketch_estimate(*s),
        sketch_elements(*s).finite() && sketch_elements(*s).len() <= 128 ==> r == sketch_elements(
            *s,
        ).len(),
{
    s.estimate()
}

// ---------------------------------------------------------------------------
// The estimator
// ---------------------------------------------------------------------------
/// Salted HyperLogLog estimator for privacy-preserving unique visitor counts.
pub struct UniquesEstimator {
    rotation: SaltRotation,
    salt_key: String,
    salt: String,
    hll: Sketch<14, 6>,
}

impl UniquesEstimator {
    /// The rotation period.
    pub closed spec fn rotation(&self) -> SaltRotation {
        self.rotation
    }

    /// The identifier of the period the salt belongs to.
    pub closed spec fn key(&self) -> Seq<char> {
        self.salt_key@
    }

    /// The salt of the current period.
    pub closed spec fn salt(&self) -> Seq<char> {
        self.salt@
    }

    /// The sketch of the current period.
    pub closed spec fn sketch(&self) -> Sketch<14, 6> {
        self.hll
    }

    /// The encoded visitor elements the sketch of the current period holds.
    pub open spec fn visitors(&self) -> Set<u32> {
        sketch_elements(self.sketch())
    }

    /// Whether `salt` is a salt generated for the period `key`.
    pub open spec fn salt_of(key: Seq<char>, salt: Seq<char>) -> bool {
        exists|random: Seq<u8>|
            #![trigger sha256_digest(encode_utf8(key) + random)]
            random.len() == 32 && salt == hex_text(sha256_digest(encode_utf8(key) + random))
    }

    /// Creates an estimator for the current period, with a fresh salt and no
    /// visitors.
    pub fn new(rotation: SaltRotation) -> (r: Self)
        ensures
            r.rotation() == rotation,
            exists|second: i64|
                #![trigger utc_date_of(second)]
                utc_date_of(second) is Some && r.key() == key_text(utc_date_of(second)->0, rotation),
            Self::salt_of(r.key(), r.salt()),
            r.visitors() == Set::<u32>::empty(),
    {
        let salt_key = current_salt_key(rotation);
        let salt = generate_salt(salt_key.as_str());
        UniquesEstimator { rotation, salt_key, salt, hll: empty_sketch() }
    }

    /// Starts a new period with a fresh salt and no visitors when `key`
    /// names a period other than the current one.
    pub fn rotate_to(&mut self, key: String)
        ensures
            final(self).rotation() == old(self).rotation(),
            final(self).key() == key@,
            key@ == old(self).key() ==> *final(self) == *old(self),
            key@ != old(self).key() ==> {
                &&& Self::salt_of(key@, final(self).salt())
                &&& final(self).visitors() == Set::<u32>::empty()
            },
    {
        if crate::text::chars_eq(
            &crate::text::chars_of(key.as_str()),
            &crate::text::chars_of(self.salt_key.as_str()),
        ) {
            return ;
        }
        self.salt = generate_salt(key.as_str());
        self.salt_key = key;
        self.hll = empty_sketch();
    }

    /// Rotates to the period of the current instant when that period has
    /// ended.
    pub fn rotate_if_expired(&mut self)
        ensures
            final(self).rotation() == old(self).rotation(),
            exists|second: i64|
                #![trigger utc_date_of(second)]
                utc_date_of(second) is Some && final(self).key() == key_text(
                    utc_date_of(second)->0,
                    old(self).rotation(),
                ),
            final(self).key() == old(self).key() ==> *final(self) == *old(self),
            final(self).key() != old(self).key() ==> {
                &&& Self::salt_of(final(self).key(), final(self).salt())
                &&& final(self).visitors() == Set::<u32>::empty()
            },
    {
        let key = current_salt_key(self.rotation);
        self.rotate_to(key);
    }

    /// Records a visitor of the current period, once rotated to it.
    pub fn record(&mut self, ip: &str, user_agent: &str)
        ensures
            final(self).rotation() == old(self).rotation(),
            final(self).key() == old(self).key(),
            final(self).salt() == old(self).salt(),
            inserted_into(
                old(self).visitors(),
                visitor_element(ip@, user_agent@, old(self).salt()),
                final(self).visitors(),
            ),
            old(self).visitors().finite() && old(self).visitors().len() <= 128
                && old(self).visitors().contains(visitor_element(ip@, user_agent@, old(self).salt()))
                ==> *final(self) == *old(self),
    {
        let h = hash_visitor(ip, user_agent, self.salt.as_str());
        sketch_insert(&mut self.hll, h);
    }

    /// Adds one visitor observation using a salted hash of IP address and
    /// user agent.
    pub fn add(&mut self, ip: &str, user_agent: &str)
        ensures
            final(self).rotation() == old(self).rotation(),
            ({
                let rotated = if final(self).key() == old(self).key() {
                    old(self).visitors()
                } else {
                    Set::<u32>::empty()
                };
                inserted_into(
                    rotated,
                    visitor_element(ip@, user_agent@, final(self).salt()),
                    final(self).visitors(),
                )
            }),
            final(self).key() == old(self).key() ==> final(self).salt() == old(self).salt(),
            final(self).key() == old(self).key() && old(self).visitors().finite()
                && old(self).visitors().len() <= 128 && old(self).visitors().contains(
                visitor_element(ip@, user_agent@, old(self).salt()),
            ) ==> *final(self) == *old(self),
            final(self).key() == old(self).key() && old(self).visitors().finite()
                && old(self).visitors().len() < 128 && !old(self).visitors().contains(
                visitor_element(ip@, user_agent@, old(self).salt()),
            ) ==> final(self).visitors().len() == old(self).visitors().len() + 1,
    {
        self.rotate_if_expired();
        self.record(ip, user_agent);
    }

    /// The estimated number of distinct visitors recorded in the sketch.
    pub fn count(&self) -> (r: usize)
        ensures
            r == sketch_estimate(self.sketch()),
            self.visitors().finite() && self.visitors().len() <= 128 ==> r == self.visitors().len(),
    {
        sketch_estimate_of(&self.hll)
    }

    /// Returns the current estimated unique visitor count, after rotating
    /// to the current period.
    pub fn estimate(&mut self) -> (r: usize)
        ensures
            final(self).rotation() == old(self).rotation(),
            final(self).key() == old(self).key() ==> *final(self) == *old(self),
            r == sketch_estimate(final(self).sketch()),
    {
        self.rotate_if_expired();
        self.count()
    }

    /// Returns the active salt.
    pub fn current_salt(&self) -> (r: String)
        ensures
            r@ == self.salt(),
    {
        string_of(&crate::text::chars_of(self.salt.as_str()))
    }

    /// Returns the period identifier.
    pub fn current_key(&self) -> (r: String)
        ensures
            r@ == self.key(),
    {
        string_of(&crate::text::chars_of(self.salt_key.as_str()))
    }

    /// The sketch, for persisting.
    pub fn hll(&self) -> (r: &Sketch<14, 6>)
        ensures
            *r == self.sketch(),
    {
        &self.hll
    }

    /// Replaces the state with a persisted one and rotates away from it when
    /// its period has ended.
    pub fn restore(&mut self, salt_key: String, salt: String, hll: Sketch<14, 6>)
        ensures
            final(self).rotation() == old(self).rotation(),
            exists|second: i64|
                #![trigger utc_date_of(second)]
                utc_date_of(second) is Some && final(self).key() == key_text(
                    utc_date_of(second)->0,
                    old(self).rotation(),
                ),
            final(self).key() == salt_key@ ==> {
                &&& final(self).salt() == salt@
                &&& final(self).sketch() == hll
            },
            final(self).key() != salt_key@ ==> {
                &&& Self::salt_of(final(self).key(), final(self).salt())
                &&& final(self).visitors() == Set::<u32>::empty()
            },
    {
        self.salt_key = salt_key;
        self.salt = salt;
        self.hll = hll;
        self.rotate_if_expired();
    }
}

// ---------------------------------------------------------------------------
// State file paths
// ---------------------------------------------------------------------------
/// The text of an optional string.
pub open spec fn opt_view(o: Option<String>) -> Option<Seq<char>> {
    match o {
        Some(s) => Some(s@),
        None => None,
    }
}

/// The parent of a path, as `std::path::Path::parent` computes it.
pub uninterp spec fn path_parent_of(path: Seq<char>) -> Option<Seq<char>>;

/// `std::path::Path::parent`, on a path given as text: the path without its
/// final component. The empty path has none; a single relative component
/// has the empty path as its parent.
#[verifier::external_body]
fn path_parent(path: &str) -> (r: Option<String>)
    ensures
        opt_view(r) == path_parent_of(path@),
        path@.len() == 0 ==> opt_view(r) is None,
        path@.len() > 0 && !path@.contains('/') ==> opt_view(r) == Some(Seq::<char>::empty()),
{
    std::path::Path::new(path).parent().map(|p| p.to_string_lossy().into_owned())
}

/// The directory to create before writing the state file, if any: the
/// path's parent unless it is empty.
pub fn parent_dir(path: &str) -> (r: Option<String>)
    ensures
        r matches Some(p) ==> path_parent_of(path@) == Some(p@) && p@.len() > 0,
        r is None ==> match path_parent_of(path@) {
            Some(p) => p.len() == 0,
            None => true,
        },
{
    match path_parent(path) {
        Some(p) => {
            if p.as_str().is_empty() {
                None
            } else {
                Some(p)
            }
        },
        None => None,
    }
}

/// The temporary file written before the state file is replaced: the path
/// with `.tmp` appended.
pub fn tmp_path(path: &str) -> (r: String)
    ensures
        r@ == path@ + seq!['.', 't', 'm', 'p'],
{
    let mut s = String::new();
    push_str(&mut s, path);
    push_str(&mut s, ".tmp");
    proof {
        reveal_strlit(".tmp");
    }
    assert(s@ =~= path@ + seq!['.', 't', 'm', 'p']);
    s
}

// ---------------------------------------------------------------------------
// What a visitor is counted by
// ---------------------------------------------------------------------------
/// Whether `c` occurs nowhere in `s`.
pub open spec fn free_of(s: Seq<char>, c: char) -> bool {
    forall|i: int| 0 <= i < s.len() ==> s[i] != c
}

/// A visitor is counted by its address and its user agent together: the
/// hash is SHA-256 of the UTF-8 text `ip|user_agent|salt` (its first eight
/// bytes, little-endian), and for one salt, visitors differing in address
/// or in user agent (neither holding `|`) hash different texts, so they are
/// apart unless SHA-256 collides.
pub proof fn visitor_hash_covers_ip_and_agent(
    ip1: Seq<char>,
    user_agent1: Seq<char>,
    ip2: Seq<char>,
    user_agent2: Seq<char>,
    salt: Seq<char>,
)
    requires
        free_of(ip1, '|'),
        free_of(ip2, '|'),
        free_of(user_agent1, '|'),
        free_of(user_agent2, '|'),
    ensures
        visitor_hash(ip1, user_agent1, salt) == spec_u64_from_le_bytes(
            sha256_digest(encode_utf8(ip1 + seq!['|'] + user_agent1 + seq!['|'] + salt)).take(8),
        ),
        ip1 != ip2 || user_agent1 != user_agent2 ==> visitor_text(ip1, user_agent1, salt)
            != visitor_text(ip2, user_agent2, salt),
{
    let t1 = visitor_text(ip1, user_agent1, salt);
    let t2 = visitor_text(ip2, user_agent2, salt);
    if t1 == t2 {
        if ip1.len() < ip2.len() {
            assert(t1[ip1.len() as int] == '|');
            assert(t2[ip1.len() as int] == ip2[ip1.len() as int]);
        } else if ip2.len() < ip1.len() {
            assert(t2[ip2.len() as int] == '|');
            assert(t1[ip2.len() as int] == ip1[ip2.len() as int]);
        }
        assert(ip1 =~= t1.subrange(0, ip1.len() as int));
        assert(ip2 =~= t2.subrange(0, ip2.len() as int));
        let p: int = ip1.len() + 1int;
        if user_agent1.len() < user_agent2.len() {
            assert(t1[p + user_agent1.len() as int] == '|');
            assert(t2[p + user_agent1.len() as int] == user_agent2[user_agent1.len() as int]);
        } else if user_agent2.len() < user_agent1.len() {
            assert(t2[p + user_agent2.len() as int] == '|');
            assert(t1[p + user_agent2.len() as int] == user_agent1[user_agent2.len() as int]);
        }
        assert(user_agent1 =~= t1.subrange(p, p + user_agent1.len() as int));
        assert(user_agent2 =~= t2.subrange(p, p + user_agent2.len() as int));
    }
}

} // verus!

//! Helpers shared by every layer: hexadecimal and decimal text, the system clock, random bytes and
//! block identifiers.

pub use crate::cid::bytes_to_cid;
use vstd::prelude::*;
use vstd::string::*;

verus! {

// ---------------------------------------------------------------------------
// Hexadecimal text
// ---------------------------------------------------------------------------

/// `String::push`: appends one character to the end of the string.
pub assume_specification[ String::push ](s: &mut String, c: char)
    ensures
        final(s)@ == old(s)@.push(c),
;

/// The lower-case hexadecimal digit for `n`, meaningful for `0 <= n < 16`.
pub open spec fn hex_digit(n: int) -> char {
    if n < 10 {
        ('0' as int + n) as char
    } else {
        ('a' as int + (n - 10)) as char
    }
}

/// Whether `c` is a hexadecimal digit in either case.
pub open spec fn is_hex_digit(c: char) -> bool {
    ||| '0' <= c && c <= '9'
    ||| 'a' <= c && c <= 'f'
    ||| 'A' <= c && c <= 'F'
}

/// The value of a hexadecimal digit in either case.
pub open spec fn hex_value(c: char) -> int {
    if '0' <= c && c <= '9' {
        c as int - '0' as int
    } else if 'a' <= c && c <= 'f' {
        c as int - 'a' as int + 10
    } else {
        c as int - 'A' as int + 10
    }
}

/// The lower-case hexadecimal text of `bytes`: two digits a byte, high half first.
pub open spec fn hex_text(bytes: Seq<u8>) -> Seq<char> {
    Seq::new(
        2 * bytes.len(),
        |i: int|
            if i % 2 == 0 {
                hex_digit(bytes[i / 2] as int / 16)
            } else {
                hex_digit(bytes[i / 2] as int % 16)
            },
    )
}

/// Whether `text` is 64 hexadecimal digits.
pub open spec fn is_pubkey_hex(text: Seq<char>) -> bool {
    &&& text.len() == 64
    &&& forall|i: int| 0 <= i < 64 ==> is_hex_digit(#[trigger] text[i])
}

/// The 32 bytes that 64 hexadecimal digits stand for.
pub open spec fn pubkey_of_hex(text: Seq<char>) -> Seq<u8> {
    Seq::new(32, |i: int| (16 * hex_value(text[2 * i]) + hex_value(text[2 * i + 1])) as u8)
}

fn hex_digit_char(n: u8) -> (c: char)
    requires
        n < 16,
    ensures
        c == hex_digit(n as int),
{
    if n < 10 {
        (48u8 + n) as char
    } else {
        (97u8 + (n - 10)) as char
    }
}

fn hex_digit_value(b: u8) -> (v: Option<u8>)
    ensures
        match v {
            Some(x) => b < 128 && is_hex_digit(b as char) && x as int == hex_value(b as char) && x
                < 16,
            None => b >= 128 || !is_hex_digit(b as char),
        },
{
    if 48 <= b && b <= 57 {
        Some((b - 48) as u8)
    } else if 97 <= b && b <= 102 {
        Some((b - 97 + 10) as u8)
    } else if 65 <= b && b <= 70 {
        Some((b - 65 + 10) as u8)
    } else {
        None
    }
}

/// Lower-case hexadecimal text of a byte string.
pub fn bytes_to_hex(bytes: &[u8]) -> (res: String)
    ensures
        res@ == hex_text(bytes@),
{
    let mut res = String::new();
    let mut i: usize = 0;
    while i < bytes.len()
        invariant
            i <= bytes@.len(),
            res@ =~= hex_text(bytes@.take(i as int)),
        decreases bytes@.len() - i,
    {
        let b = bytes[i];
        res.push(hex_digit_char(b / 16));
        res.push(hex_digit_char(b % 16));
        proof {
            let before = bytes@.take(i as int);
            let after = bytes@.take(i + 1);
            assert(after =~= before.push(b));
            assert forall|j: int| 0 <= j < 2 * after.len() implies hex_text(after)[j] == res@[j] by {
                if j < 2 * i {
                    assert(after[j / 2] == before[j / 2]);
                } else {
                    assert(j / 2 == i);
                }
            }
        }
        i += 1;
    }
    assert(bytes@.take(i as int) =~= bytes@);
    res
}

/// The public key that 64 hexadecimal digits stand for; any other text gives `None`.
pub fn hex_to_pubkey(hex: &str) -> (res: Option<[u8; 32]>)
    ensures
        res is Some <==> is_pubkey_hex(hex@),
        res matches Some(key) ==> key@ == pubkey_of_hex(hex@),
{
    if !hex.is_ascii() {
        proof {
            if is_pubkey_hex(hex@) {
                assert(is_ascii(hex));
            }
        }
        return None;
    }
    let bytes = hex.as_bytes();
    proof {
        is_ascii_spec_bytes(hex);
    }
    if bytes.len() != 64 {
        return None;
    }
    let mut out: [u8; 32] = [0u8; 32];
    let mut i: usize = 0;
    while i < 32
        invariant
            i <= 32,
            bytes@.len() == 64,
            hex@.len() == 64,
            is_ascii(hex),
            forall|j: int| 0 <= j < 64 ==> hex@[j] as u8 == #[trigger] bytes@[j],
            forall|j: int| 0 <= j < 64 ==> 0 <= #[trigger] hex@[j] as int && (hex@[j] as int) < 128,
            forall|j: int| 0 <= j < 2 * i ==> is_hex_digit(#[trigger] hex@[j]),
            forall|j: int| 0 <= j < i ==> #[trigger] out@[j] == pubkey_of_hex(hex@)[j],
        decreases 32 - i,
    {
        let high = match hex_digit_value(bytes[2 * i]) {
            Some(v) => v,
            None => {
                assert(!is_hex_digit(hex@[2 * i as int]));
                return None;
            },
        };
        let low = match hex_digit_value(bytes[2 * i + 1]) {
            Some(v) => v,
            None => {
                assert(!is_hex_digit(hex@[2 * i as int + 1]));
                return None;
            },
        };
        out[i] = 16 * high + low;
        i += 1;
    }
    Some(out)
}

/// Reading back the hexadecimal text of a public key gives the key.
pub proof fn hex_roundtrip(key: Seq<u8>)
    requires
        key.len() == 32,
    ensures
        is_pubkey_hex(hex_text(key)),
        pubkey_of_hex(hex_text(key)) == key,
{
    let text = hex_text(key);
    assert forall|i: int| 0 <= i < 64 implies is_hex_digit(#[trigger] text[i]) by {
        let b = key[i / 2] as int;
        assert(0 <= b / 16 < 16 && 0 <= b % 16 < 16);
    }
    assert forall|i: int| 0 <= i < 32 implies pubkey_of_hex(text)[i] == key[i] by {
        let b = key[i] as int;
        assert((2 * i) / 2 == i && (2 * i) % 2 == 0);
        assert((2 * i + 1) / 2 == i && (2 * i + 1) % 2 == 1);
        assert(text[2 * i] == hex_digit(b / 16));
        assert(text[2 * i + 1] == hex_digit(b % 16));
        assert(hex_value(hex_digit(b / 16)) == b / 16);
        assert(hex_value(hex_digit(b % 16)) == b % 16);
    }
    assert(pubkey_of_hex(text) =~= key);
}

/// Different byte strings have different hexadecimal texts.
pub proof fn hex_text_injective(a: Seq<u8>, b: Seq<u8>)
    requires
        hex_text(a) == hex_text(b),
    ensures
        a == b,
{
    assert(hex_text(a).len() == 2 * a.len() && hex_text(b).len() == 2 * b.len());
    assert forall|i: int| 0 <= i < a.len() implies a[i] == b[i] by {
        assert((2 * i) / 2 == i && (2 * i) % 2 == 0);
        assert((2 * i + 1) / 2 == i && (2 * i + 1) % 2 == 1);
        let x = a[i] as int;
        let y = b[i] as int;
        assert(hex_text(a)[2 * i] == hex_digit(x / 16));
        assert(hex_text(b)[2 * i] == hex_digit(y / 16));
        assert(hex_text(a)[2 * i + 1] == hex_digit(x % 16));
        assert(hex_text(b)[2 * i + 1] == hex_digit(y % 16));
        assert(hex_value(hex_digit(x / 16)) == x / 16);
        assert(hex_value(hex_digit(y / 16)) == y / 16);
        assert(hex_value(hex_digit(x % 16)) == x % 16);
        assert(hex_value(hex_digit(y % 16)) == y % 16);
    }
    assert(a =~= b);
}

// ---------------------------------------------------------------------------
// Decimal text
// ---------------------------------------------------------------------------

/// The decimal digits of a number.
pub open spec fn decimal(n: nat) -> Seq<char>
    decreases n,
{
    if n < 10 {
        seq![hex_digit(n as int)]
    } else {
        decimal(n / 10).push(hex_digit((n % 10) as int))
    }
}

/// The decimal text of a signed number.
pub open spec fn signed_decimal(n: int) -> Seq<char> {
    if n < 0 {
        seq!['-'] + decimal((-n) as nat)
    } else {
        decimal(n as nat)
    }
}

/// The decimal text of a number.
pub fn u64_to_text(n: u64) -> (res: String)
    ensures
        res@ == decimal(n as nat),
    decreases n,
{
    if n < 10 {
        let mut res = String::new();
        res.push(hex_digit_char(n as u8));
        assert(res@ =~= decimal(n as nat));
        res
    } else {
        let mut res = u64_to_text(n / 10);
        res.push(hex_digit_char((n % 10) as u8));
        res
    }
}

/// The decimal text of a signed number.
pub fn i64_to_text(n: i64) -> (res: String)
    ensures
        res@ == signed_decimal(n as int),
{
    if n < 0 {
        let mut res = String::new();
        res.push('-');
        let magnitude: u64 = if n == i64::MIN {
            0x8000_0000_0000_0000
        } else {
            (-n) as u64
        };
        let res = res.concat(u64_to_text(magnitude).as_str());
        assert(res@ =~= signed_decimal(n as int));
        res
    } else {
        u64_to_text(n as u64)
    }
}

// ---------------------------------------------------------------------------
// Clock and randomness
// ---------------------------------------------------------------------------

/// `std::time::SystemTime`.
#[verifier::external_type_specification]
#[verifier::external_body]
pub struct ExSystemTime(std::time::SystemTime);

/// `std::time::SystemTimeError`.
#[verifier::external_type_specification]
#[verifier::external_body]
pub struct ExSystemTimeError(std::time::SystemTimeError);

/// `SystemTime::now`. Nothing is claimed of what the clock shows.
#[verifier::external_body]
fn system_now() -> (t: std::time::SystemTime) {
    std::time::SystemTime::now()
}

/// `SystemTime::duration_since` the Unix epoch. Nothing is claimed of the result, which
/// follows the clock.
#[verifier::external_body]
fn since_epoch(t: &std::time::SystemTime) -> (res: Result<
    std::time::Duration,
    std::time::SystemTimeError,
>) {
    t.duration_since(std::time::UNIX_EPOCH)
}

/// `Duration::as_millis`. Nothing is claimed of the result, which follows the clock.
#[verifier::external_body]
fn duration_millis(d: &std::time::Duration) -> (ms: u128) {
    d.as_millis()
}

/// `getrandom::fill` on a fresh array; `None` when the source of randomness fails. Nothing is
/// claimed of the bytes.
#[verifier::external_body]
pub(crate) fn random_bytes<const N: usize>() -> (res: Option<[u8; N]>) {
    let mut buf = [0u8; N];
    match getrandom::fill(&mut buf) {
        Ok(()) => Some(buf),
        Err(_) => None,
    }
}

/// A reading of the clock, in milliseconds since the Unix epoch, as a timestamp. A clock
/// before the epoch gives no reading, and one past the range of timestamps no timestamp.
pub fn timestamp_from_clock(reading: Option<u128>) -> (res: Option<i64>)
    ensures
        match res {
            Some(t) => reading matches Some(ms) && t as int == ms as int,
            None => reading matches Some(ms) ==> ms > i64::MAX as u128,
        },
{
    match reading {
        Some(ms) => if ms <= i64::MAX as u128 {
            Some(ms as i64)
        } else {
            None
        },
        None => None,
    }
}

/// The current time in milliseconds since the Unix epoch. A clock that shows a time before
/// the epoch is a fault of the machine: it gives `None`, so that no wrong value slips into a
/// signed timestamp or an expiry.
pub fn now_ms() -> (res: Option<i64>)
    ensures
        res matches Some(t) ==> 0 <= t,
{
    let now = system_now();
    let reading = match since_epoch(&now) {
        Ok(d) => Some(duration_millis(&d)),
        Err(_) => None,
    };
    timestamp_from_clock(reading)
}

/// A time `ms` milliseconds after `now`, if there is such a timestamp.
pub fn time_after(now: Option<i64>, ms: i64) -> (res: Option<i64>)
    ensures
        match res {
            Some(t) => now matches Some(n) && t == n + ms,
            None => now matches Some(n) ==> n + ms > i64::MAX || n + ms < i64::MIN,
        },
{
    match now {
        Some(n) => n.checked_add(ms),
        None => None,
    }
}

/// A time well ahead of now, by one hour: an expiry for records that should not run out.
pub fn far_future_ms() -> (res: Option<i64>)
    ensures
        res matches Some(t) ==> 3_600_000 <= t,
{
    time_after(now_ms(), 3_600_000)
}

/// The hexadecimal text of bytes has two digits a byte, the high half first, from `0` to `9` and
/// from `a` to `f`.
pub proof fn hex_text_is_two_digits_a_byte(bytes: Seq<u8>, i: int)
    requires
        0 <= i < bytes.len(),
    ensures
        hex_text(bytes).len() == 2 * bytes.len(),
        ({
            let high = hex_text(bytes)[2 * i] as int;
            let low = hex_text(bytes)[2 * i + 1] as int;
            &&& 48 <= high <= 57 || 97 <= high <= 102
            &&& 48 <= low <= 57 || 97 <= low <= 102
            &&& bytes[i] == 16 * (if high <= 57 {
                high - 48
            } else {
                high - 87
            }) + (if low <= 57 {
                low - 48
            } else {
                low - 87
            })
        }),
{
    assert((2 * i) / 2 == i && (2 * i) % 2 == 0);
    assert((2 * i + 1) / 2 == i && (2 * i + 1) % 2 == 1);
}

/// Sixty-four hexadecimal digits in either case, and nothing else, stand for a key, two digits
/// for each of its bytes.
pub proof fn key_is_sixty_four_digits(text: Seq<char>, i: int)
    requires
        is_pubkey_hex(text),
        0 <= i < 32,
    ensures
        text.len() == 64,
        pubkey_of_hex(text).len() == 32,
        ({
            let high = text[2 * i] as int;
            let low = text[2 * i + 1] as int;
            &&& 48 <= high <= 57 || 97 <= high <= 102 || 65 <= high <= 70
            &&& 48 <= low <= 57 || 97 <= low <= 102 || 65 <= low <= 70
            &&& pubkey_of_hex(text)[i] == 16 * (if high <= 57 {
                high - 48
            } else if high <= 70 {
                high - 55
            } else {
                high - 87
            }) + (if low <= 57 {
                low - 48
            } else if low <= 70 {
                low - 55
            } else {
                low - 87
            })
        }),
{
    assert(is_hex_digit(text[2 * i]));
    assert(is_hex_digit(text[2 * i + 1]));
}

/// Any sixty-four digits are a key's text.
pub proof fn sixty_four_digits_are_a_key(text: Seq<char>)
    requires
        text.len() == 64,
        forall|i: int|
            0 <= i < 64 ==> {
                let n = #[trigger] text[i] as int;
                48 <= n <= 57 || 97 <= n <= 102 || 65 <= n <= 70
            },
    ensures
        is_pubkey_hex(text),
{
    assert forall|i: int| 0 <= i < 64 implies is_hex_digit(#[trigger] text[i]) by {
        let n = text[i] as int;
        assert(48 <= n <= 57 || 97 <= n <= 102 || 65 <= n <= 70);
    }
}

/// The number that a text of decimal digits stands for.
pub open spec fn decimal_value(text: Seq<char>) -> int
    decreases text.len(),
{
    if text.len() == 0 {
        0
    } else {
        10 * decimal_value(text.drop_last()) + (text.last() as int - 48)
    }
}

/// The decimal text of a number stands for it, has digits alone, and no zero in front.
pub proof fn decimal_stands_for_its_number(n: nat)
    ensures
        decimal_value(decimal(n)) == n,
        decimal(n).len() > 0,
        n > 0 ==> decimal(n)[0] != '0',
        forall|i: int|
            0 <= i < decimal(n).len() ==> 48 <= (#[trigger] decimal(n)[i]) as int <= 57,
    decreases n,
{
    if n < 10 {
        assert(decimal(n).drop_last() =~= Seq::<char>::empty());
        assert(decimal_value(Seq::<char>::empty()) == 0);
    } else {
        decimal_stands_for_its_number(n / 10);
        let front = decimal(n / 10);
        assert(decimal(n).drop_last() =~= front);
        assert(decimal(n)[0] == front[0]);
    }
}

/// The text of a negative number is a minus sign before the text of its amount.
pub proof fn signed_decimal_stands_for_its_number(n: int)
    ensures
        n >= 0 ==> decimal_value(signed_decimal(n)) == n,
        n < 0 ==> signed_decimal(n)[0] == '-' && decimal_value(signed_decimal(n).skip(1)) == -n,
{
    if n < 0 {
        decimal_stands_for_its_number((-n) as nat);
        assert(signed_decimal(n).skip(1) =~= decimal((-n) as nat));
    } else {
        decimal_stands_for_its_number(n as nat);
    }
}

} // verus!

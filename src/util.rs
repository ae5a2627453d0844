//! Small helpers: absent-if-zero scalars, node identifiers in their `!hex`
//! form, and text clean-up.
use vstd::prelude::*;
use vstd::std_specs::iter::IteratorSpec;
use vstd::string::StringExecFns;

verus! {

broadcast use vstd::string::group_string_axioms;

/// Relies on std's `String::push`: it appends one character to the string.
pub assume_specification[ String::push ](s: &mut String, ch: char)
    ensures
        final(s)@ == old(s)@.push(ch),
;

/// Treats the zero value of an optional scalar as absent.
pub fn none_if_default(value: i64) -> (r: Option<i64>)
    ensures
        r == (if value == 0 { None } else { Some(value) }),
{
    if value == 0 {
        None
    } else {
        Some(value)
    }
}

pub open spec fn hex_chars() -> Seq<char> {
    seq!['0', '1', '2', '3', '4', '5', '6', '7', '8', '9', 'a', 'b', 'c', 'd', 'e', 'f']
}

pub open spec fn pow16(n: nat) -> nat
    decreases n,
{
    if n == 0 {
        1
    } else {
        16 * pow16((n - 1) as nat)
    }
}

/// The `k`th of the eight lowercase hex digits of `id`, most significant first.
pub open spec fn hex_digit_of(id: u32, k: int) -> char {
    hex_chars()[(id as int / pow16((7 - k) as nat) as int) % 16]
}

/// How a node id is shown to people: `!` and eight lowercase hex digits.
pub open spec fn node_user_id(id: u32) -> Seq<char> {
    seq!['!'] + Seq::new(8, |k: int| hex_digit_of(id, k))
}

/// Formats a node id as `!` followed by eight lowercase hex digits.
pub fn format_node_id(id: u32) -> (r: String)
    ensures
        r@ == node_user_id(id),
{
    let table = ['0', '1', '2', '3', '4', '5', '6', '7', '8', '9', 'a', 'b', 'c', 'd', 'e', 'f'];
    proof {
        assert(table@ =~= hex_chars());
        reveal_with_fuel(pow16, 8);
    }
    let mut s = String::new();
    s.push('!');
    let mut divisor: u32 = 0x1000_0000;
    let mut k: usize = 0;
    while k < 8
        invariant
            k <= 8,
            table@ == hex_chars(),
            k < 8 ==> divisor == pow16((7 - k) as nat),
            s@ == seq!['!'] + Seq::new(k as nat, |j: int| hex_digit_of(id, j)),
        decreases 8 - k,
    {
        proof {
            reveal_with_fuel(pow16, 8);
            assert(divisor > 0);
        }
        let d = ((id / divisor) % 16) as usize;
        let ghost before = s@;
        s.push(table[d]);
        proof {
            assert(s@ =~= seq!['!'] + Seq::new((k + 1) as nat, |j: int| hex_digit_of(id, j)));
        }
        divisor = divisor / 16;
        k = k + 1;
    }
    proof {
        assert(s@ =~= node_user_id(id));
    }
    s
}

/// The code points dropped by `demoji`: emoticons, pictographs, transport
/// and map symbols, regional-indicator flags, dingbats, and the box-drawing to
/// miscellaneous-symbols blocks.
pub open spec fn is_emoji(c: char) -> bool {
    let u = c as u32;
    ||| 0x1F600 <= u <= 0x1F64F
    ||| 0x1F300 <= u <= 0x1F5FF
    ||| 0x1F680 <= u <= 0x1F6FF
    ||| 0x1F1E0 <= u <= 0x1F1FF
    ||| 0x2702 <= u <= 0x27B0
    ||| 0x2500 <= u <= 0x2BEF
}

/// The string without its emoji.
pub fn demoji(string: &str) -> (r: String)
    ensures
        r@ == string@.filter(|c: char| !is_emoji(c)),
{
    let mut out = String::new();
    for c in iter: string.chars()
        invariant
            iter.seq() == string@,
            out@ == iter.seq().subrange(0, iter.index() as int).filter(|c: char| !is_emoji(c)),
    {
        let u = c as u32;
        let emoji = (0x1F600 <= u && u <= 0x1F64F) || (0x1F300 <= u && u <= 0x1F5FF) || (0x1F680
            <= u && u <= 0x1F6FF) || (0x1F1E0 <= u && u <= 0x1F1FF) || (0x2702 <= u && u <= 0x27B0)
            || (0x2500 <= u && u <= 0x2BEF);
        proof {
            reveal(Seq::filter);
            assert(iter.seq().subrange(0, iter.index() + 1).drop_last() =~= iter.seq().subrange(
                0,
                iter.index() as int,
            ));
        }
        if !emoji {
            out.push(c);
        }
    }
    proof {
        assert(string@.subrange(0, string@.len() as int) =~= string@);
    }
    out
}

/// Why a hexadecimal number did not parse.
#[derive(Clone, Copy, PartialEq, Eq, Debug)]
pub enum ParseIdError {
    Empty,
    InvalidDigit,
    PosOverflow,
}

pub open spec fn hex_value(c: char) -> Option<nat> {
    if '0' <= c <= '9' {
        Some((c as nat - '0' as nat) as nat)
    } else if 'a' <= c <= 'f' {
        Some((c as nat - 'a' as nat + 10) as nat)
    } else if 'A' <= c <= 'F' {
        Some((c as nat - 'A' as nat + 10) as nat)
    } else {
        None
    }
}

/// Reads hex digits left to right; the first bad digit or the first overflow
/// past 32 bits is the error.
pub open spec fn hex_scan(digits: Seq<char>) -> Result<nat, ParseIdError>
    decreases digits.len(),
{
    if digits.len() == 0 {
        Ok(0)
    } else {
        match hex_scan(digits.drop_last()) {
            Err(e) => Err(e),
            Ok(v) => match hex_value(digits.last()) {
                None => Err(ParseIdError::InvalidDigit),
                Some(d) => if v * 16 + d > u32::MAX {
                    Err(ParseIdError::PosOverflow)
                } else {
                    Ok(v * 16 + d)
                },
            },
        }
    }
}

/// A base-16 `u32`, with an optional leading `+`.
pub open spec fn parse_hex_u32(s: Seq<char>) -> Result<u32, ParseIdError> {
    if s.len() == 0 {
        Err(ParseIdError::Empty)
    } else {
        let digits = if s[0] == '+' {
            s.drop_first()
        } else {
            s
        };
        if digits.len() == 0 {
            Err(ParseIdError::InvalidDigit)
        } else {
            match hex_scan(digits) {
                Ok(v) => Ok(v as u32),
                Err(e) => Err(e),
            }
        }
    }
}

fn hex_digit_value(c: char) -> (r: Option<u32>)
    ensures
        match hex_value(c) {
            Some(d) => r == Some(d as u32),
            None => r is None,
        },
{
    if '0' <= c && c <= '9' {
        Some(c as u32 - '0' as u32)
    } else if 'a' <= c && c <= 'f' {
        Some(c as u32 - 'a' as u32 + 10)
    } else if 'A' <= c && c <= 'F' {
        Some(c as u32 - 'A' as u32 + 10)
    } else {
        None
    }
}

proof fn lemma_scan_error_stays(digits: Seq<char>, k: int)
    requires
        0 <= k <= digits.len(),
        hex_scan(digits.subrange(0, k)) is Err,
    ensures
        hex_scan(digits) == hex_scan(digits.subrange(0, k)),
    decreases digits.len() - k,
{
    if k < digits.len() {
        assert(digits.subrange(0, k + 1).drop_last() =~= digits.subrange(0, k));
        lemma_scan_error_stays(digits, k + 1);
    } else {
        assert(digits.subrange(0, k) =~= digits);
    }
}

/// Parses a base-16 `u32` the way the standard library does.
pub fn parse_hex(s: &str) -> (r: Result<u32, ParseIdError>)
    ensures
        r == parse_hex_u32(s@),
{
    let mut value: u32 = 0;
    let mut digits_seen: usize = 0;
    let mut signed = false;
    let mut error: Option<ParseIdError> = None;
    let mut pos: usize = 0;
    let ghost all = s@;
    let total = s.unicode_len();
    for c in iter: s.chars()
        invariant
            iter.seq() == all,
            all.len() == total,
            pos == iter.index(),
            digits_seen <= pos,
            signed == (iter.index() > 0 && all[0] == '+'),
            digits_seen == (if signed { iter.index() - 1 } else { iter.index() as int }),
            error is None ==> hex_scan(all.subrange(if signed { 1 } else { 0 }, iter.index() as int))
                == Ok::<nat, ParseIdError>(value as nat),
            error matches Some(e) ==> hex_scan(all.subrange(if signed { 1 } else { 0 }, iter.index() as int))
                == Err::<nat, ParseIdError>(e),
    {
        let ghost start: int = if signed { 1 } else { 0 };
        proof {
            assert(iter.index() < all.len());
        }
        if pos == 0 && c == '+' {
            signed = true;
            proof {
                assert(all.subrange(1, 1) =~= Seq::<char>::empty());
            }
        } else {
            proof {
                assert(all.subrange(start, iter.index() + 1).drop_last() =~= all.subrange(
                    start,
                    iter.index() as int,
                ));
            }
            digits_seen = digits_seen + 1;
            if error.is_none() {
                match hex_digit_value(c) {
                    None => {
                        error = Some(ParseIdError::InvalidDigit);
                    },
                    Some(d) => {
                        if value > 0x0FFF_FFFF {
                            error = Some(ParseIdError::PosOverflow);
                        } else {
                            value = value * 16 + d;
                        }
                    },
                }
            }
        }
        pos = pos + 1;
    }
    proof {
        let start: int = if signed { 1 } else { 0 };
        if s@.len() > 0 && s@[0] == '+' {
            assert(all.drop_first() =~= all.subrange(1, all.len() as int));
        } else {
            assert(all =~= all.subrange(0, all.len() as int));
        }
    }
    if pos == 0 {
        return Err(ParseIdError::Empty);
    }
    if digits_seen == 0 {
        return Err(ParseIdError::InvalidDigit);
    }
    match error {
        Some(e) => Err(e),
        None => Ok(value),
    }
}

/// The number after a leading `!`, in hex: how node and gateway ids are written.
pub fn parse_hexadecimal_id(input: &str) -> (r: Option<u32>)
    ensures
        r == (if input@.len() > 0 && input@[0] == '!' {
            match parse_hex_u32(input@.drop_first()) {
                Ok(v) => Some(v),
                Err(_) => None,
            }
        } else {
            None
        }),
{
    if input.unicode_len() == 0 || input.get_char(0) != '!' {
        return None;
    }
    let rest = input.substring_char(1, input.unicode_len());
    proof {
        assert(rest@ =~= input@.drop_first());
    }
    match parse_hex(rest) {
        Ok(v) => Some(v),
        Err(_) => None,
    }
}

pub open spec fn parse_error_text(e: ParseIdError) -> Seq<char> {
    match e {
        ParseIdError::Empty => "cannot parse integer from empty string"@,
        ParseIdError::InvalidDigit => "invalid digit found in string"@,
        ParseIdError::PosOverflow => "number too large to fit in target type"@,
    }
}

/// The error as a message.
pub fn stringify(x: ParseIdError) -> (r: String)
    ensures
        r@ == "error: "@ + parse_error_text(x),
{
    let mut s = String::from_str("error: ");
    let text = match x {
        ParseIdError::Empty => "cannot parse integer from empty string",
        ParseIdError::InvalidDigit => "invalid digit found in string",
        ParseIdError::PosOverflow => "number too large to fit in target type",
    };
    s.append(text);
    s
}

pub open spec fn pow10(n: nat) -> nat
    decreases n,
{
    if n == 0 {
        1
    } else {
        10 * pow10((n - 1) as nat)
    }
}

/// The decimal digits of `n`, most significant first.
pub open spec fn decimal(n: nat) -> Seq<char>
    decreases n,
{
    if n < 10 {
        seq![hex_chars()[n as int]]
    } else {
        decimal(n / 10).push(hex_chars()[(n % 10) as int])
    }
}

/// Seven fractional digits of `n < 10^7`, zero-padded.
pub open spec fn fraction7(n: nat) -> Seq<char> {
    Seq::new(7, |k: int| hex_chars()[((n / pow10((6 - k) as nat)) % 10) as int])
}

/// Degrees given as an integer times 10^7, written with seven decimals.
pub open spec fn degrees_text(e7: i32) -> Seq<char> {
    let a: nat = if e7 < 0 {
        (-(e7 as int)) as nat
    } else {
        e7 as nat
    };
    (if e7 < 0 {
        seq!['-']
    } else {
        Seq::empty()
    }) + decimal(a / 10_000_000) + seq!['.'] + fraction7(a % 10_000_000)
}

fn push_decimal(s: &mut String, n: u32)
    ensures
        final(s)@ == old(s)@ + decimal(n as nat),
    decreases n,
{
    let table = ['0', '1', '2', '3', '4', '5', '6', '7', '8', '9'];
    proof {
        assert(table@ =~= hex_chars().subrange(0, 10));
    }
    if n >= 10 {
        push_decimal(s, n / 10);
    }
    s.push(table[(n % 10) as usize]);
    proof {
        assert(s@ =~= old(s)@ + decimal(n as nat));
    }
}

fn push_degrees(s: &mut String, e7: i32)
    ensures
        final(s)@ == old(s)@ + degrees_text(e7),
{
    let a: u32 = if e7 < 0 {
        (-(e7 as i64)) as u32
    } else {
        e7 as u32
    };
    if e7 < 0 {
        s.push('-');
    }
    let ghost after_sign = s@;
    push_decimal(s, a / 10_000_000);
    s.push('.');
    let table = ['0', '1', '2', '3', '4', '5', '6', '7', '8', '9'];
    let frac = a % 10_000_000;
    let ghost head = s@;
    let mut divisor: u32 = 1_000_000;
    let mut k: usize = 0;
    proof {
        reveal_with_fuel(pow10, 7);
    }
    while k < 7
        invariant
            k <= 7,
            table@ == hex_chars().subrange(0, 10),
            k < 7 ==> divisor == pow10((6 - k) as nat),
            s@ == head + Seq::new(k as nat, |j: int| hex_chars()[((frac as nat / pow10((6 - j) as nat)) % 10) as int]),
        decreases 7 - k,
    {
        proof {
            reveal_with_fuel(pow10, 7);
        }
        let d = ((frac / divisor) % 10) as usize;
        s.push(table[d]);
        proof {
            assert(s@ =~= head + Seq::new((k + 1) as nat, |j: int| hex_chars()[((frac as nat / pow10((6 - j) as nat)) % 10) as int]));
        }
        divisor = divisor / 10;
        k = k + 1;
    }
    proof {
        assert(s@ =~= old(s)@ + degrees_text(e7));
    }
}

/// A latitude and longitude (degrees times 10^7) as `lat, lon` with seven
/// decimals each.
pub fn format_mesh_gps(latitude_i: i32, longitude_i: i32) -> (r: String)
    ensures
        r@ == degrees_text(latitude_i) + seq![',', ' '] + degrees_text(longitude_i),
{
    let mut s = String::new();
    push_degrees(&mut s, latitude_i);
    s.push(',');
    s.push(' ');
    push_degrees(&mut s, longitude_i);
    s
}

} // verus!

//! Bluetooth device addresses: six octets, read from and written as text.
use vstd::prelude::*;
use crate::text::{chars_of, push_char};

verus! {

/// A Bluetooth device address.
#[derive(PartialEq, Eq, Debug, Clone, Copy)]
pub struct BdAddr(pub [u8; 6]);

/// Why a text is not an address.
#[derive(PartialEq, Eq, Debug, Clone, Copy)]
pub enum ParseBdAddrError {
    /// A pair of characters is not a hexadecimal byte.
    InvalidByte,
    /// The text has neither the length nor the shape of an address.
    UnknownFormat,
}

/// Value of a hexadecimal digit.
pub open spec fn hex_value(c: char) -> Option<int> {
    if '0' <= c <= '9' {
        Some(c as int - '0' as int)
    } else if 'a' <= c <= 'f' {
        Some(c as int - 'a' as int + 10)
    } else if 'A' <= c <= 'F' {
        Some(c as int - 'A' as int + 10)
    } else {
        None
    }
}

/// The byte that two hexadecimal digits spell.
pub open spec fn byte_of(a: char, b: char) -> Option<u8> {
    match (hex_value(a), hex_value(b)) {
        (Some(x), Some(y)) => Some((16 * x + y) as u8),
        _ => None,
    }
}

/// The bytes spelled by the pairs of characters that start at `starts`.
pub open spec fn bytes_at(s: Seq<char>, starts: Seq<int>) -> Option<Seq<u8>> {
    if forall|k: int| 0 <= k < 6 ==> #[trigger] byte_of(s[starts[k]], s[starts[k] + 1]) is Some {
        Some(Seq::new(6, |k: int| byte_of(s[starts[k]], s[starts[k] + 1])->0))
    } else {
        None
    }
}

pub open spec fn plain_starts() -> Seq<int> {
    seq![0, 2, 4, 6, 8, 10]
}

pub open spec fn colon_starts() -> Seq<int> {
    seq![0, 3, 6, 9, 12, 15]
}

/// `AA:BB:CC:DD:EE:FF` has its colons at 2, 5, 8, 11 and 14.
pub open spec fn has_colons(s: Seq<char>) -> bool {
    s.len() == 17 && s[2] == ':' && s[5] == ':' && s[8] == ':' && s[11] == ':' && s[14] == ':'
}

/// What reading `s` as an address gives: twelve hexadecimal digits, or
/// six pairs separated by colons.
pub open spec fn parse_spec(s: Seq<char>) -> Result<Seq<u8>, ParseBdAddrError> {
    if s.len() == 12 {
        match bytes_at(s, plain_starts()) {
            Some(b) => Ok(b),
            None => Err(ParseBdAddrError::InvalidByte),
        }
    } else if has_colons(s) {
        match bytes_at(s, colon_starts()) {
            Some(b) => Ok(b),
            None => Err(ParseBdAddrError::InvalidByte),
        }
    } else {
        Err(ParseBdAddrError::UnknownFormat)
    }
}

/// Lower-case hexadecimal digit of `n < 16`.
pub open spec fn lower_digit(n: int) -> char {
    if n < 10 { ('0' as int + n) as char } else { ('a' as int + n - 10) as char }
}

/// Upper-case hexadecimal digit of `n < 16`.
pub open spec fn upper_digit(n: int) -> char {
    if n < 10 { ('0' as int + n) as char } else { ('A' as int + n - 10) as char }
}

/// `aa:bb:cc:dd:ee:ff`, in lower case.
pub open spec fn colon_text(b: Seq<u8>) -> Seq<char> {
    Seq::new(
        17,
        |i: int|
            if i % 3 == 2 {
                ':'
            } else if i % 3 == 0 {
                lower_digit(b[i / 3] as int / 16)
            } else {
                lower_digit(b[i / 3] as int % 16)
            },
    )
}

/// `AABBCCDDEEFF`, in upper case.
pub open spec fn plain_text(b: Seq<u8>) -> Seq<char> {
    Seq::new(
        12,
        |i: int|
            if i % 2 == 0 {
                upper_digit(b[i / 2] as int / 16)
            } else {
                upper_digit(b[i / 2] as int % 16)
            },
    )
}

proof fn lemma_digits(x: u8)
    ensures
        byte_of(lower_digit(x as int / 16), lower_digit(x as int % 16)) == Some(x),
        byte_of(upper_digit(x as int / 16), upper_digit(x as int % 16)) == Some(x),
{
    let h = x as int / 16;
    let l = x as int % 16;
    assert(0 <= h < 16 && 0 <= l < 16 && 16 * h + l == x as int);
    assert(hex_value(lower_digit(h)) == Some(h));
    assert(hex_value(lower_digit(l)) == Some(l));
    assert(hex_value(upper_digit(h)) == Some(h));
    assert(hex_value(upper_digit(l)) == Some(l));
}

/// Writing an address in either text form and reading the text back gives
/// the same six bytes.
pub proof fn lemma_text_round_trip(b: Seq<u8>)
    requires
        b.len() == 6,
    ensures
        parse_spec(colon_text(b)) == Ok::<Seq<u8>, ParseBdAddrError>(b),
        parse_spec(plain_text(b)) == Ok::<Seq<u8>, ParseBdAddrError>(b),
{
    let c = colon_text(b);
    let p = plain_text(b);
    assert forall|k: int| 0 <= k < 6 implies #[trigger] byte_of(
        c[colon_starts()[k]],
        c[colon_starts()[k] + 1],
    ) == Some(b[k]) && byte_of(p[plain_starts()[k]], p[plain_starts()[k] + 1]) == Some(b[k]) by {
        lemma_digits(b[k]);
        assert(colon_starts()[k] == 3 * k);
        assert(plain_starts()[k] == 2 * k);
        assert((3 * k) / 3 == k && (3 * k) % 3 == 0);
        assert((3 * k + 1) / 3 == k && (3 * k + 1) % 3 == 1);
        assert((2 * k) / 2 == k && (2 * k) % 2 == 0);
        assert((2 * k + 1) / 2 == k && (2 * k + 1) % 2 == 1);
    }
    assert(has_colons(c));
    assert(Seq::new(6, |k: int| byte_of(c[colon_starts()[k]], c[colon_starts()[k] + 1])->0) =~= b);
    assert(Seq::new(6, |k: int| byte_of(p[plain_starts()[k]], p[plain_starts()[k] + 1])->0) =~= b);
}

fn hex_digit(c: char) -> (r: Option<u8>)
    ensures
        match r {
            Some(v) => hex_value(c) == Some(v as int),
            None => hex_value(c) is None,
        },
{
    if '0' <= c && c <= '9' {
        Some((c as u32 - '0' as u32) as u8)
    } else if 'a' <= c && c <= 'f' {
        Some((c as u32 - 'a' as u32 + 10) as u8)
    } else if 'A' <= c && c <= 'F' {
        Some((c as u32 - 'A' as u32 + 10) as u8)
    } else {
        None
    }
}

fn byte(a: char, b: char) -> (r: Option<u8>)
    ensures
        r == byte_of(a, b),
{
    match (hex_digit(a), hex_digit(b)) {
        (Some(x), Some(y)) => Some(16 * x + y),
        _ => None,
    }
}

fn bytes(s: &Vec<char>, step: usize) -> (r: Option<[u8; 6]>)
    requires
        step == 2 || step == 3,
        s.len() >= 5 * step + 2,
    ensures
        match r {
            Some(b) => bytes_at(
                s@,
                if step == 2 {
                    plain_starts()
                } else {
                    colon_starts()
                },
            ) == Some(b@),
            None => bytes_at(
                s@,
                if step == 2 {
                    plain_starts()
                } else {
                    colon_starts()
                },
            ) is None,
        },
{
    let ghost starts = if step == 2 {
        plain_starts()
    } else {
        colon_starts()
    };
    assert forall|k: int| 0 <= k < 6 implies starts[k] == k * step by {
        assert(starts[k] == k * step);
    }
    let mut out = [0u8; 6];
    let mut k: usize = 0;
    while k < 6
        invariant
            k <= 6,
            s.len() >= 5 * step + 2,
            step == 2 || step == 3,
            forall|m: int| 0 <= m < 6 ==> #[trigger] starts[m] == m * step,
            forall|m: int| 0 <= m < k ==> byte_of(s@[#[trigger] starts[m]], s@[starts[m] + 1]) == Some(out@[m]),
        decreases 6 - k,
    {
        let p = k * step;
        match byte(s[p], s[p + 1]) {
            Some(v) => {
                out[k] = v;
            },
            None => {
                assert(!(byte_of(s@[starts[k as int]], s@[starts[k as int] + 1]) is Some));
                return None;
            },
        }
        k = k + 1;
    }
    assert(bytes_at(s@, starts) == Some(out@)) by {
        assert(Seq::new(6, |m: int| byte_of(s@[starts[m]], s@[starts[m] + 1])->0) =~= out@);
    }
    Some(out)
}

fn lower(n: u8) -> (r: char)
    requires
        n < 16,
    ensures
        r == lower_digit(n as int),
{
    if n < 10 { ((48u8 + n) as char) } else { ((87u8 + n) as char) }
}

fn upper(n: u8) -> (r: char)
    requires
        n < 16,
    ensures
        r == upper_digit(n as int),
{
    if n < 10 { ((48u8 + n) as char) } else { ((55u8 + n) as char) }
}

impl BdAddr {
    pub fn new(value: [u8; 6]) -> (r: Self)
        ensures
            r.0 == value,
    {
        Self(value)
    }

    /// The six bytes.
    pub fn bytes(&self) -> (r: [u8; 6])
        ensures
            r == self.0,
    {
        self.0
    }

    /// Reads `AABBCCDDEEFF` or `AA:BB:CC:DD:EE:FF` (digits in either case).
    pub fn parse(src: &str) -> (r: Result<BdAddr, ParseBdAddrError>)
        ensures
            match r {
                Ok(a) => parse_spec(src@) == Ok::<Seq<u8>, ParseBdAddrError>(a.0@),
                Err(e) => parse_spec(src@) == Err::<Seq<u8>, ParseBdAddrError>(e),
            },
    {
        let s = chars_of(src);
        if s.len() == 12 {
            match bytes(&s, 2) {
                Some(b) => Ok(BdAddr(b)),
                None => Err(ParseBdAddrError::InvalidByte),
            }
        } else if s.len() == 17 && s[2] == ':' && s[5] == ':' && s[8] == ':' && s[11] == ':'
            && s[14] == ':' {
            match bytes(&s, 3) {
                Some(b) => Ok(BdAddr(b)),
                None => Err(ParseBdAddrError::InvalidByte),
            }
        } else {
            Err(ParseBdAddrError::UnknownFormat)
        }
    }

    /// `aa:bb:cc:dd:ee:ff`, in lower case: the usual display form.
    pub fn to_colon_string(&self) -> (r: String)
        ensures
            r@ == colon_text(self.0@),
    {
        let mut r = String::new();
        let mut k: usize = 0;
        while k < 6
            invariant
                k <= 6,
                r@.len() == if k == 0 { 0 } else { 3 * k - 1 },
                forall|i: int| 0 <= i < r@.len() ==> r@[i] == #[trigger] colon_text(self.0@)[i],
            decreases 6 - k,
        {
            if k > 0 {
                push_char(&mut r, ':');
            }
            push_char(&mut r, lower(self.0[k] / 16));
            push_char(&mut r, lower(self.0[k] % 16));
            k = k + 1;
        }
        assert(r@ =~= colon_text(self.0@));
        r
    }

    /// `AABBCCDDEEFF`, in upper case, without separators.
    pub fn to_plain_string(&self) -> (r: String)
        ensures
            r@ == plain_text(self.0@),
    {
        let mut r = String::new();
        let mut k: usize = 0;
        while k < 6
            invariant
                k <= 6,
                r@.len() == 2 * k,
                forall|i: int| 0 <= i < r@.len() ==> r@[i] == #[trigger] plain_text(self.0@)[i],
            decreases 6 - k,
        {
            push_char(&mut r, upper(self.0[k] / 16));
            push_char(&mut r, upper(self.0[k] % 16));
            k = k + 1;
        }
        assert(r@ =~= plain_text(self.0@));
        r
    }
}

impl std::str::FromStr for BdAddr {
    type Err = ParseBdAddrError;

    fn from_str(src: &str) -> Result<BdAddr, ParseBdAddrError> {
        BdAddr::parse(src)
    }
}

} // verus!

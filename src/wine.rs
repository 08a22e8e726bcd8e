//! Rules of the Windows runtime that hosts the test suite: the prefix's
//! architecture, the serial ports it offers, and where the installer
//! unpacks itself.
use vstd::prelude::*;
use crate::ets::names_view;
use crate::text::{chars_of, push_char, same_text};

verus! {

/// Architecture of a Windows prefix.
#[derive(Debug, PartialEq, Eq, Structural, Clone, Copy)]
pub enum WineArch {
    Win32,
    Win64,
}

impl WineArch {
    /// The name the runtime takes for the architecture.
    pub fn as_str(&self) -> (r: &'static str)
        ensures
            r@ == match self {
                WineArch::Win32 => "win32"@,
                WineArch::Win64 => "win64"@,
            },
    {
        match self {
            WineArch::Win32 => "win32",
            WineArch::Win64 => "win64",
        }
    }
}

pub open spec fn digit_char(d: nat) -> char {
    ('0' as int + d) as char
}

/// `n` written in decimal.
pub open spec fn decimal_text(n: nat) -> Seq<char>
    decreases n,
{
    if n < 10 {
        seq![digit_char(n)]
    } else {
        decimal_text(n / 10).push(digit_char(n % 10))
    }
}

/// Writes `n` in decimal.
pub fn decimal(n: u32) -> (r: String)
    ensures
        r@ == decimal_text(n as nat),
    decreases n,
{
    let d = ((48u32 + n % 10) as u8) as char;
    if n < 10 {
        let mut s = String::new();
        push_char(&mut s, d);
        assert(s@ =~= seq![digit_char(n as nat)]);
        s
    } else {
        let mut s = decimal(n / 10);
        push_char(&mut s, d);
        s
    }
}

/// The name of serial port `n` in the device directory.
pub open spec fn com_name(n: nat) -> Seq<char> {
    "com"@ + decimal_text(n)
}

/// The lowest of `com1` to `com255` that `devices` does not hold.
pub fn first_available_com_port(devices: &Vec<String>) -> (r: Option<String>)
    ensures
        match r {
            Some(name) => exists|n: nat|
                1 <= n <= 255 && name@ == com_name(n) && !names_view(devices@).contains(com_name(n))
                    && forall|m: nat| 1 <= m < n ==> names_view(devices@).contains(#[trigger] com_name(m)),
            None => forall|m: nat| 1 <= m <= 255 ==> names_view(devices@).contains(#[trigger] com_name(m)),
        },
{
    let mut n: u32 = 1;
    while n <= 255
        invariant
            1 <= n <= 256,
            forall|m: nat| 1 <= m < n ==> names_view(devices@).contains(#[trigger] com_name(m)),
        decreases 256 - n,
    {
        let mut name = "com".to_string();
        let digits = decimal(n);
        name.append(digits.as_str());
        let mut found = false;
        let mut i: usize = 0;
        while i < devices.len()
            invariant
                i <= devices.len(),
                name@ == com_name(n as nat),
                found ==> names_view(devices@).contains(name@),
                !found ==> forall|j: int| 0 <= j < i ==> devices@[j]@ != name@,
            decreases devices.len() - i,
        {
            if same_text(devices[i].as_str(), name.as_str()) {
                assert(names_view(devices@)[i as int] == name@);
                found = true;
            }
            i = i + 1;
        }
        if !found {
            proof {
                assert(!names_view(devices@).contains(name@)) by {
                    if names_view(devices@).contains(name@) {
                        let j = choose|j: int|
                            0 <= j < names_view(devices@).len() && names_view(devices@)[j] == name@;
                        assert(devices@[j]@ == name@);
                    }
                }
            }
            assert(1 <= (n as nat) <= 255 && name@ == com_name(n as nat));
            return Some(name);
        }
        n = n + 1;
    }
    None
}

/// Whether a directory name is one the installer unpacks into: seven
/// characters among `0-9` and `A-F`.
pub fn is_extract_dir_name(name: &str) -> (r: bool)
    ensures
        r == (name@.len() == 7 && forall|i: int|
            0 <= i < 7 ==> ('0' <= #[trigger] name@[i] <= '9' || 'A' <= name@[i] <= 'F')),
{
    let s = chars_of(name);
    if s.len() != 7 {
        return false;
    }
    let mut i: usize = 0;
    while i < 7
        invariant
            i <= 7,
            s@ == name@,
            s@.len() == 7,
            forall|k: int| 0 <= k < i ==> ('0' <= #[trigger] s@[k] <= '9' || 'A' <= s@[k] <= 'F'),
        decreases 7 - i,
    {
        let c = s[i];
        if !(('0' <= c && c <= '9') || ('A' <= c && c <= 'F')) {
            return false;
        }
        i = i + 1;
    }
    true
}

} // verus!

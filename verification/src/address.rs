//! Bluetooth addresses: normalisation of user input and validation.
use vstd::prelude::*;
use crate::text::{
    ascii_upper, from_chars, is_hex, is_hex_char, is_space, lemma_trim_noop, lemma_trim_shape, to_chars,
    trim, trim_bounds, upper,
};

verus! {

/// A Bluetooth address, kept in its normalised text form.
#[derive(Debug, Hash, PartialOrd, Ord)]
pub struct BluetoothAddress(String);

/// The input is not a Bluetooth address.
#[derive(Debug, Clone, Copy, PartialEq, Eq)]
pub struct AddressParseError;

impl View for BluetoothAddress {
    type V = Seq<char>;

    closed spec fn view(&self) -> Seq<char> {
        self.0@
    }
}

impl Clone for BluetoothAddress {
    fn clone(&self) -> (r: Self)
        ensures
            r@ == self@,
    {
        BluetoothAddress(self.0.clone())
    }
}

impl PartialEq for BluetoothAddress {
    fn eq(&self, other: &Self) -> (r: bool) {
        self.0 == other.0
    }
}

impl vstd::std_specs::cmp::PartialEqSpecImpl for BluetoothAddress {
    open spec fn obeys_eq_spec() -> bool {
        true
    }

    open spec fn eq_spec(&self, other: &Self) -> bool {
        self@ == other@
    }
}

impl Eq for BluetoothAddress {}

/// The character that normalisation puts in place of `c`: the separators `-`
/// and `_` become `:`, letters are upper-cased.
pub open spec fn normalized_char(c: char) -> char {
    if c == '-' || c == '_' {
        ':'
    } else {
        upper(c)
    }
}

/// Normalised form of an address as typed: surrounding white space removed,
/// `-` and `_` replaced by `:`, ASCII letters upper-cased.
pub open spec fn normalized(s: Seq<char>) -> Seq<char> {
    trim(s).map_values(|c: char| normalized_char(c))
}

/// Six colon-separated pairs of hexadecimal digits.
pub open spec fn is_valid(s: Seq<char>) -> bool {
    &&& s.len() == 17
    &&& forall|i: int|
        0 <= i < 17 ==> if i % 3 == 2 {
            #[trigger] s[i] == ':'
        } else {
            is_hex(s[i])
        }
}

fn normalize_chars(address: &str) -> (r: Vec<char>)
    ensures
        r@ == normalized(address@),
{
    let chars = to_chars(address);
    let (start, end) = trim_bounds(&chars);
    let mut out: Vec<char> = Vec::new();
    let mut i = start;
    while i < end
        invariant
            start <= i <= end <= chars@.len(),
            out@ == chars@.subrange(start as int, i as int).map_values(|c: char| normalized_char(c)),
        decreases end - i,
    {
        let c = chars[i];
        let n = if c == '-' || c == '_' {
            ':'
        } else {
            ascii_upper(c)
        };
        out.push(n);
        assert(chars@.subrange(start as int, i + 1).map_values(|c: char| normalized_char(c))
            =~= chars@.subrange(start as int, i as int).map_values(|c: char| normalized_char(c)).push(n));
        i = i + 1;
    }
    out
}

fn is_valid_chars(s: &Vec<char>) -> (r: bool)
    ensures
        r == is_valid(s@),
{
    if s.len() != 17 {
        return false;
    }
    let mut i: usize = 0;
    while i < 17
        invariant
            s@.len() == 17,
            i <= 17,
            forall|k: int|
                0 <= k < i ==> if k % 3 == 2 {
                    #[trigger] s@[k] == ':'
                } else {
                    is_hex(s@[k])
                },
        decreases 17 - i,
    {
        let ok = if i % 3 == 2 {
            s[i] == ':'
        } else {
            is_hex_char(s[i])
        };
        if !ok {
            return false;
        }
        i = i + 1;
    }
    true
}

/// The normalised form of an address, as a string.
pub fn normalize_address(address: &str) -> (r: String)
    ensures
        r@ == normalized(address@),
{
    let chars = normalize_chars(address);
    from_chars(chars.as_slice())
}

/// Whether a string is six colon-separated pairs of hexadecimal digits.
pub fn is_valid_address(address: &str) -> (r: bool)
    ensures
        r == is_valid(address@),
{
    let chars = to_chars(address);
    is_valid_chars(&chars)
}

impl BluetoothAddress {
    /// Normalises the text without checking that it is an address.
    pub fn new_unchecked(address: &str) -> (r: Self)
        ensures
            r@ == normalized(address@),
    {
        BluetoothAddress(normalize_address(address))
    }

    /// Normalises user input and accepts it only if it is an address.
    pub fn parse(address: &str) -> (r: Result<Self, AddressParseError>)
        ensures
            r is Ok <==> is_valid(normalized(address@)),
            r matches Ok(a) ==> a@ == normalized(address@),
    {
        let chars = normalize_chars(address);
        if is_valid_chars(&chars) {
            Ok(BluetoothAddress(from_chars(chars.as_slice())))
        } else {
            Err(AddressParseError)
        }
    }

    pub fn as_str(&self) -> (r: &str)
        ensures
            r@ == self@,
    {
        self.0.as_str()
    }
}

impl core::str::FromStr for BluetoothAddress {
    type Err = AddressParseError;

    fn from_str(value: &str) -> (r: Result<Self, Self::Err>)
        ensures
            r is Ok <==> is_valid(normalized(value@)),
            r matches Ok(a) ==> a@ == normalized(value@),
    {
        Self::parse(value)
    }
}

/// Normalising twice gives what normalising once gives.
pub proof fn lemma_normalize_idempotent(s: Seq<char>)
    ensures
        normalized(normalized(s)) == normalized(s),
{
    let t = trim(s);
    let m = normalized(s);
    lemma_trim_shape(s);
    if m.len() > 0 {
        assert(m[0] == normalized_char(t[0]));
        assert(m.last() == normalized_char(t.last()));
    }
    lemma_trim_noop(m);
    assert(normalized(m) =~= m);
}

/// The text of an address accepted by `parse` is accepted again, as the same
/// address: parsing what was parsed changes nothing.
pub proof fn lemma_parse_accepts_its_output(s: Seq<char>)
    requires
        is_valid(normalized(s)),
    ensures
        is_valid(normalized(normalized(s))),
        normalized(normalized(s)) == normalized(s),
{
    lemma_normalize_idempotent(s);
}

impl AddressParseError {
    /// The text that describes the error.
    pub fn message(&self) -> (r: String)
        ensures
            r@ == "invalid Bluetooth address"@,
    {
        String::from_str("invalid Bluetooth address")
    }
}

} // verus!

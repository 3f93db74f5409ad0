use vstd::prelude::*;

verus! {

/// A 20-byte account address, as the chains hand it out.
#[derive(Clone, Copy, Debug, PartialEq, Eq, PartialOrd, Ord, Hash)]
pub struct Address(pub [u8; 20]);

impl View for Address {
    type V = Seq<u8>;

    open spec fn view(&self) -> Seq<u8> {
        self.0@
    }
}

/// The lowercase hexadecimal digit for `n` (`0 <= n < 16`).
pub open spec fn hex_digit(n: int) -> char {
    if n < 10 {
        ('0' as int + n) as char
    } else {
        ('a' as int + n - 10) as char
    }
}

/// Two lowercase hex digits for one byte, high nibble first.
pub open spec fn hex_byte(b: u8) -> Seq<char> {
    seq![hex_digit(b as int / 16), hex_digit(b as int % 16)]
}

/// Lowercase hex for a byte string, two digits per byte.
pub open spec fn hex_lower(bytes: Seq<u8>) -> Seq<char>
    decreases bytes.len(),
{
    if bytes.len() == 0 {
        Seq::empty()
    } else {
        hex_lower(bytes.drop_last()) + hex_byte(bytes.last())
    }
}

/// How an address prints: `0x` and then all of its bytes in lowercase hex.
pub open spec fn address_text(bytes: Seq<u8>) -> Seq<char> {
    seq!['0', 'x'] + hex_lower(bytes)
}

/// A character that hex decoding reads as a digit.
pub open spec fn is_hex_char(c: char) -> bool {
    ('0' <= c && c <= '9') || ('a' <= c && c <= 'f') || ('A' <= c && c <= 'F')
}

/// A character that hex decoding skips.
pub open spec fn is_hex_space(c: char) -> bool {
    c == ' ' || c == '\r' || c == '\n' || c == '\t'
}

/// The value of a hex digit.
pub open spec fn hex_value(c: char) -> int {
    if '0' <= c && c <= '9' {
        c as int - '0' as int
    } else if 'a' <= c && c <= 'f' {
        c as int - 'a' as int + 10
    } else {
        c as int - 'A' as int + 10
    }
}

/// The text with one leading `0x` removed, if it has one.
pub open spec fn strip_hex_prefix(s: Seq<char>) -> Seq<char> {
    if s.len() >= 2 && s[0] == '0' && s[1] == 'x' {
        s.skip(2)
    } else {
        s
    }
}

/// The hex digits of an address text, whitespace left out.
pub open spec fn address_digits(s: Seq<char>) -> Seq<char> {
    strip_hex_prefix(s).filter(|c: char| is_hex_char(c))
}

/// Whether a text parses as an address: after an optional `0x` it holds only
/// hex digits and whitespace, and exactly 40 digits.
pub open spec fn parses_as_address(s: Seq<char>) -> bool {
    &&& forall|i: int|
        0 <= i < strip_hex_prefix(s).len() ==> is_hex_char(#[trigger] strip_hex_prefix(s)[i])
            || is_hex_space(strip_hex_prefix(s)[i])
    &&& address_digits(s).len() == 40
}

/// The bytes that an address text decodes to, two digits per byte.
pub open spec fn parsed_address(s: Seq<char>) -> Seq<u8> {
    Seq::new(
        20,
        |i: int|
            (hex_value(address_digits(s)[2 * i]) * 16 + hex_value(address_digits(s)[2 * i + 1])) as u8,
    )
}

/// The all-zero address.
pub open spec fn zero_address() -> Seq<u8> {
    Seq::new(20, |i: int| 0u8)
}

impl Address {
    /// The all-zero address.
    pub fn zero() -> (r: Address)
        ensures
            r@ == zero_address(),
    {
        let r = Address([0u8; 20]);
        assert(r@ =~= zero_address());
        r
    }

    /// Whether two addresses hold the same bytes.
    pub fn same(&self, other: &Address) -> (r: bool)
        ensures
            r == (self@ == other@),
    {
        let mut i: usize = 0;
        while i < 20
            invariant
                i <= 20,
                self@.len() == 20,
                other@.len() == 20,
                forall|k: int| 0 <= k < i ==> self@[k] == other@[k],
            decreases 20 - i,
        {
            if self.0[i] != other.0[i] {
                return false;
            }
            i += 1;
        }
        assert(self@ =~= other@);
        true
    }
}

/// Prints an address the way `web3`'s `Address` prints under `{:#x?}`.
/// Claims the text is `0x` and the 20 bytes in lowercase hex, two digits
/// each; the `Debug` and `LowerHex` impls of `fixed-hash` write exactly that.
#[verifier::external_body]
pub(crate) fn address_to_text(a: &Address) -> (s: String)
    ensures
        s@ == address_text(a@),
{
    format!("{:#x?}", web3::types::Address::from(a.0))
}

/// Parses an address with `web3`'s `Address::from_str`. Claims success
/// exactly when the text, after an optional `0x`, holds only hex digits and
/// whitespace with 40 digits in all, and that the bytes are those digits
/// read in pairs; `fixed-hash`'s `FromStr` over `rustc-hex`'s `FromHexIter`
/// does that.
#[verifier::external_body]
pub(crate) fn parse_address(s: &str) -> (r: Option<Address>)
    ensures
        r is Some <==> parses_as_address(s@),
        r matches Some(a) ==> a@ == parsed_address(s@),
{
    match <web3::types::Address as std::str::FromStr>::from_str(s) {
        Ok(a) => Some(Address(a.0)),
        Err(_) => None,
    }
}

} // verus!

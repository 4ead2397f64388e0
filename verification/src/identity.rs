//! The persistent identity of an endpoint: its secret key, the endpoint ID that
//! is the public half of it, and the two files that hold them.
use vstd::prelude::*;

use crate::text;
use crate::text_laws;

verus! {

// ---------------------------------------------------------------------------
// z-base-32
// ---------------------------------------------------------------------------

/// The character of z-base-32 that stands for a number below 32.
pub open spec fn z32_char(v: int) -> char {
    "ybndrfg8ejkmcpqxot1uwisza345h769"@[v]
}

/// Whether a character is one that stands for some number.
pub open spec fn is_z32(c: char) -> bool {
    exists|v: int| 0 <= v < 32 && #[trigger] z32_char(v) == c
}

/// The number that a character of z-base-32 stands for.
pub open spec fn z32_value(c: char) -> int {
    choose|v: int| 0 <= v < 32 && #[trigger] z32_char(v) == c
}

/// Whether every byte belongs to the z-base-32 alphabet.
pub open spec fn all_z32(s: Seq<u8>) -> bool {
    forall|i: int| 0 <= i < s.len() ==> is_z32(#[trigger] s[i] as char)
}

/// Bit `k` of a number, counted from the lowest.
pub open spec fn bit(v: int, k: nat) -> int
    decreases k,
{
    if k == 0 {
        v % 2
    } else {
        bit(v / 2, (k - 1) as nat)
    }
}

/// The bits of some bytes, the highest bit of each byte first.
pub open spec fn byte_bits(bytes: Seq<u8>) -> Seq<int> {
    Seq::new(8 * bytes.len(), |j: int| bit(bytes[j / 8] as int, (7 - j % 8) as nat))
}

/// The bits of a z-base-32 text, five to a character, the highest first.
pub open spec fn z32_bits(encoded: Seq<u8>) -> Seq<int> {
    Seq::new(
        5 * encoded.len(),
        |j: int| bit(z32_value(encoded[j / 5] as char), (4 - j % 5) as nat),
    )
}

/// The number that the `n` bits from a position on make up, the highest first.
/// Behind the end of the bits there are zeros.
pub open spec fn number(bits: Seq<int>, from: int, n: nat) -> int
    decreases n,
{
    if n == 0 {
        0
    } else {
        2 * number(bits, from, (n - 1) as nat) + if from + n - 1 < bits.len() {
            bits[from + n - 1]
        } else {
            0
        }
    }
}

/// The number of whole bytes that `n` characters of z-base-32 decode to. Eight
/// characters carry five bytes.
pub open spec fn z32_decoded_len(n: nat) -> nat {
    let r = n % 8;
    5 * (n / 8) + if r <= 2 {
        (r + 1) / 2
    } else if r <= 4 {
        2nat
    } else if r == 5 {
        3nat
    } else {
        4nat
    }
}

/// The bytes that a z-base-32 text decodes to.
pub open spec fn z32_bytes(encoded: Seq<u8>) -> Seq<u8> {
    Seq::new(
        z32_decoded_len(encoded.len()),
        |k: int| number(z32_bits(encoded), 8 * k, 8) as u8,
    )
}

/// The z-base-32 text of some bytes: five bits to a character, the last character
/// filled up with zeros.
pub open spec fn z32_text(bytes: Seq<u8>) -> Seq<char> {
    Seq::new(
        ((8 * bytes.len() + 4) / 5) as nat,
        |i: int| z32_char(number(byte_bits(bytes), 5 * i, 5)),
    )
}

/// The bytes of a text of ASCII characters.
pub open spec fn ascii_bytes(s: Seq<char>) -> Seq<u8> {
    s.map_values(|c: char| c as u8)
}

/// `z32::decode`: decodes a z-base-32 text to whole bytes. It succeeds exactly on
/// texts over the alphabet; otherwise it reports the first byte that is not in
/// the alphabet, and where that byte stands.
#[verifier::external_body]
fn z32_decode(encoded: &[u8]) -> (r: Result<Vec<u8>, (char, usize)>)
    requires
        encoded@.len() * 5 + 7 <= usize::MAX,
    ensures
        r is Ok == all_z32(encoded@),
        r matches Ok(bytes) ==> bytes@ == z32_bytes(encoded@),
        r matches Err((c, at)) ==> at < encoded@.len() && c == encoded@[at as int] as char
            && !is_z32(c) && all_z32(encoded@.take(at as int)),
{
    match z32::decode(encoded) {
        Ok(bytes) => Ok(bytes),
        Err(z32::Z32Error::InvalidCharacter(c, at)) => Err((c, at)),
    }
}

/// `z32::encode`: the z-base-32 text of some bytes.
#[verifier::external_body]
fn z32_encode(bytes: &[u8]) -> (r: String)
    requires
        bytes@.len() * 8 <= usize::MAX,
    ensures
        r@ == z32_text(bytes@),
{
    z32::encode(bytes)
}

/// The place of a character in the alphabet.
spec fn place(c: char) -> int {
    match c {
        'y' => 0,
        'b' => 1,
        'n' => 2,
        'd' => 3,
        'r' => 4,
        'f' => 5,
        'g' => 6,
        '8' => 7,
        'e' => 8,
        'j' => 9,
        'k' => 10,
        'm' => 11,
        'c' => 12,
        'p' => 13,
        'q' => 14,
        'x' => 15,
        'o' => 16,
        't' => 17,
        '1' => 18,
        'u' => 19,
        'w' => 20,
        'i' => 21,
        's' => 22,
        'z' => 23,
        'a' => 24,
        '3' => 25,
        '4' => 26,
        '5' => 27,
        'h' => 28,
        '7' => 29,
        '6' => 30,
        _ => 31,
    }
}

/// Different numbers have different characters, all of them ASCII.
proof fn lemma_alphabet(v: int)
    requires
        0 <= v < 32,
    ensures
        z32_value(z32_char(v)) == v,
        is_z32(z32_char(v)),
        z32_char(v) <= '\u{7f}',
{
    reveal_strlit("ybndrfg8ejkmcpqxot1uwisza345h769");
    assert forall|w: int| 0 <= w < 32 implies place(#[trigger] z32_char(w)) == w && z32_char(w)
        <= '\u{7f}' by {
        assert(w == 0 || w == 1 || w == 2 || w == 3 || w == 4 || w == 5 || w == 6 || w == 7 || w == 8
            || w == 9 || w == 10 || w == 11 || w == 12 || w == 13 || w == 14 || w == 15 || w == 16
            || w == 17 || w == 18 || w == 19 || w == 20 || w == 21 || w == 22 || w == 23 || w == 24
            || w == 25 || w == 26 || w == 27 || w == 28 || w == 29 || w == 30 || w == 31);
    }
    let c = z32_char(v);
    assert(0 <= z32_value(c) < 32 && z32_char(z32_value(c)) == c);
}

/// Whether all the bits are bits.
spec fn are_bits(bits: Seq<int>) -> bool {
    forall|j: int| 0 <= j < bits.len() ==> #[trigger] bits[j] == 0 || bits[j] == 1
}

proof fn lemma_bit(v: int, k: nat)
    ensures
        bit(v, k) == 0 || bit(v, k) == 1,
    decreases k,
{
    if k > 0 {
        lemma_bit(v / 2, (k - 1) as nat);
    }
}

/// The bits of a number that some bits make up are those bits.
proof fn lemma_number_bits(bits: Seq<int>, from: int, n: nat, r: int)
    requires
        are_bits(bits),
        0 <= from,
        0 <= r < n,
        from + r < bits.len(),
    ensures
        bit(number(bits, from, n), (n - 1 - r) as nat) == bits[from + r],
    decreases n,
{
    let shorter = number(bits, from, (n - 1) as nat);
    let last = if from + n - 1 < bits.len() {
        bits[from + n - 1]
    } else {
        0
    };
    assert(last == 0 || last == 1);
    assert(number(bits, from, n) == 2 * shorter + last);
    if r < n - 1 {
        lemma_number_bits(bits, from, (n - 1) as nat, r);
        assert((2 * shorter + last) / 2 == shorter);
    }
}

/// Five bits make up a number below 32.
proof fn lemma_quintet(bits: Seq<int>, from: int)
    requires
        are_bits(bits),
        0 <= from,
    ensures
        0 <= number(bits, from, 5) < 32,
{
    reveal_with_fuel(number, 6);
}

/// A number without its lowest `k` bits.
spec fn high_part(v: int, k: nat) -> int
    decreases k,
{
    if k == 0 {
        v
    } else {
        high_part(v, (k - 1) as nat) / 2
    }
}

proof fn lemma_high_part(v: int, k: nat)
    ensures
        high_part(v / 2, k) == high_part(v, k) / 2,
        bit(v, k) == high_part(v, k) % 2,
    decreases k,
{
    if k > 0 {
        lemma_high_part(v, (k - 1) as nat);
        lemma_high_part(v / 2, (k - 1) as nat);
    }
}

/// The first bits of a byte make up the high part of the byte.
proof fn lemma_octet(bytes: Seq<u8>, bits: Seq<int>, k: int, n: nat)
    requires
        0 <= k < bytes.len(),
        n <= 8,
        bits.len() >= 8 * bytes.len(),
        forall|j: int| 0 <= j < 8 * bytes.len() ==> #[trigger] bits[j] == byte_bits(bytes)[j],
    ensures
        number(bits, 8 * k, n) == high_part(bytes[k] as int, (8 - n) as nat),
    decreases n,
{
    let v = bytes[k] as int;
    if n == 0 {
        reveal_with_fuel(high_part, 9);
    } else {
        lemma_octet(bytes, bits, k, (n - 1) as nat);
        let j = 8 * k + n - 1;
        assert(j / 8 == k && j % 8 == n - 1);
        assert(bits[j] == bit(v, (8 - n) as nat));
        lemma_high_part(v, (8 - n) as nat);
    }
}

/// The z-base-32 text of some bytes is over the alphabet, and decodes to the bytes.
pub proof fn z32_reads_back(bytes: Seq<u8>)
    ensures
        all_z32(ascii_bytes(z32_text(bytes))),
        z32_bytes(ascii_bytes(z32_text(bytes))) == bytes,
        vstd::utf8::encode_utf8(z32_text(bytes)) == ascii_bytes(z32_text(bytes)),
{
    let bits = byte_bits(bytes);
    let text = z32_text(bytes);
    let encoded = ascii_bytes(text);
    assert(are_bits(bits)) by {
        assert forall|j: int| 0 <= j < bits.len() implies #[trigger] bits[j] == 0 || bits[j]
            == 1 by {
            lemma_bit(bytes[j / 8] as int, (7 - j % 8) as nat);
        }
    }
    assert forall|i: int| 0 <= i < text.len() implies ({
        &&& #[trigger] encoded[i] as char == text[i]
        &&& is_z32(text[i])
        &&& text[i] <= '\u{7f}'
        &&& z32_value(text[i]) == number(bits, 5 * i, 5)
    }) by {
        lemma_quintet(bits, 5 * i);
        lemma_alphabet(number(bits, 5 * i, 5));
    }
    let stream = z32_bits(encoded);
    assert forall|j: int| 0 <= j < 8 * bytes.len() implies #[trigger] stream[j] == bits[j] by {
        let i = j / 5;
        let r = j % 5;
        assert(0 <= i < text.len());
        assert(encoded[i] as char == text[i]);
        lemma_number_bits(bits, 5 * i, 5, r);
        assert(5 * i + r == j);
    }
    let decoded = z32_bytes(encoded);
    assert(decoded.len() == bytes.len());
    assert forall|k: int| 0 <= k < bytes.len() implies #[trigger] decoded[k] == bytes[k] by {
        lemma_octet(bytes, stream, k, 8);
    }
    assert(decoded =~= bytes);
    assert(vstd::utf8::is_ascii_chars(text)) by {
        assert forall|i: int| 0 <= i < text.len() implies '\0' <= #[trigger] text[i]
            <= '\u{7f}' by {
            assert(encoded[i] as char == text[i]);
        }
    }
    vstd::utf8::is_ascii_chars_encode_utf8(text);
    assert(vstd::utf8::encode_utf8(text) =~= encoded);
}

// ---------------------------------------------------------------------------
// Keys
// ---------------------------------------------------------------------------

/// Why a text is not an endpoint ID.
#[derive(Debug, Clone, Copy, PartialEq, Eq, Structural)]
pub enum KeyParseError {
    /// It has the length of a hex key, but it is not lower case hex.
    Hex,
    /// It has the length of a base32 key, but it is not base32.
    Base32,
    /// It has the length of neither.
    Length,
    /// The bytes are not a public key.
    Data,
}

/// The key bytes that a text stands for, or why it stands for none.
pub uninterp spec fn parsed_key(text: Seq<char>) -> Result<Seq<u8>, KeyParseError>;

/// The public half of the key pair with these secret bytes.
pub uninterp spec fn public_bytes(secret: Seq<u8>) -> Seq<u8>;

/// The lower case hexadecimal digit that stands for `d`.
pub open spec fn hex_digit(d: int) -> char {
    if d < 10 {
        ('0' as u8 + d) as u8 as char
    } else {
        ('a' as u8 + (d - 10)) as u8 as char
    }
}

/// The lower case hexadecimal notation of some bytes, two digits to a byte.
pub open spec fn hex(bytes: Seq<u8>) -> Seq<char>
    decreases bytes.len(),
{
    if bytes.len() == 0 {
        seq![]
    } else {
        hex(bytes.drop_last()).push(hex_digit(bytes.last() as int / 16)).push(
            hex_digit(bytes.last() as int % 16),
        )
    }
}

/// `iroh::PublicKey::from_str`: reads a public key from its hex or base32
/// notation. The hex notation of a key that was read stands for the same key.
#[verifier::external_body]
fn parse_public_key(text: &str) -> (r: Result<[u8; 32], KeyParseError>)
    ensures
        match r {
            Ok(bytes) => parsed_key(text@) == Ok::<Seq<u8>, KeyParseError>(bytes@) && parsed_key(
                hex(bytes@),
            ) == Ok::<Seq<u8>, KeyParseError>(bytes@),
            Err(e) => parsed_key(text@) == Err::<Seq<u8>, KeyParseError>(e),
        },
{
    match text.parse::<iroh::PublicKey>() {
        Ok(key) => Ok(*key.as_bytes()),
        Err(iroh::KeyParsingError::FailedToDecodeHex { .. }) => Err(KeyParseError::Hex),
        Err(iroh::KeyParsingError::FailedToDecodeBase32 { .. }) => Err(KeyParseError::Base32),
        Err(iroh::KeyParsingError::InvalidLength { .. }) => Err(KeyParseError::Length),
        Err(_) => Err(KeyParseError::Data),
    }
}

/// `iroh::SecretKey::from_bytes` and `iroh::SecretKey::public`: the public half
/// of a key pair. Its hex notation stands for it.
#[verifier::external_body]
fn derive_public_key(secret: &[u8; 32]) -> (r: [u8; 32])
    ensures
        r@ == public_bytes(secret@),
        parsed_key(hex(r@)) == Ok::<Seq<u8>, KeyParseError>(r@),
{
    *iroh::SecretKey::from_bytes(secret).public().as_bytes()
}

/// `ed25519_dalek::SECRET_KEY_LENGTH`: the length of a secret key in bytes.
#[verifier::external_body]
fn secret_key_length() -> (n: usize)
    ensures
        n == 32,
{
    ed25519_dalek::SECRET_KEY_LENGTH
}

impl KeyParseError {
    /// The error in words.
    pub open spec fn words(self) -> Seq<char> {
        match self {
            KeyParseError::Hex => "failed to decode hex string"@,
            KeyParseError::Base32 => "failed to decode base32 string"@,
            KeyParseError::Length => "invalid length"@,
            KeyParseError::Data => "data is not a valid public key"@,
        }
    }

    /// The error in words.
    pub fn message(&self) -> (r: String)
        ensures
            r@ == self.words(),
    {
        match self {
            KeyParseError::Hex => "failed to decode hex string".to_owned(),
            KeyParseError::Base32 => "failed to decode base32 string".to_owned(),
            KeyParseError::Length => "invalid length".to_owned(),
            KeyParseError::Data => "data is not a valid public key".to_owned(),
        }
    }
}

/// The identifier of an endpoint: the public half of its key pair.
#[derive(Debug, Clone, Copy)]
pub struct EndpointId {
    bytes: [u8; 32],
}

impl View for EndpointId {
    type V = Seq<u8>;

    closed spec fn view(&self) -> Seq<u8> {
        self.bytes@
    }
}

/// Whether a key is the one that its own hex notation stands for.
pub open spec fn is_key(key: Seq<u8>) -> bool {
    parsed_key(hex(key)) == Ok::<Seq<u8>, KeyParseError>(key)
}

impl EndpointId {
    /// An endpoint ID is a key, which its hex notation stands for.
    #[verifier::type_invariant]
    spec fn stands_for_itself(self) -> bool {
        is_key(self.bytes@)
    }

    /// Reads an endpoint ID from its hex or base32 notation.
    pub fn parse(text: &str) -> (r: Result<EndpointId, KeyParseError>)
        ensures
            match r {
                Ok(id) => parsed_key(text@) == Ok::<Seq<u8>, KeyParseError>(id@) && is_key(id@),
                Err(e) => parsed_key(text@) == Err::<Seq<u8>, KeyParseError>(e),
            },
    {
        match parse_public_key(text) {
            Ok(bytes) => Ok(EndpointId { bytes }),
            Err(e) => Err(e),
        }
    }

    /// The bytes of the public key.
    pub fn to_bytes(&self) -> (r: [u8; 32])
        ensures
            r@ == self@,
            is_key(self@),
    {
        proof {
            use_type_invariant(self);
        }
        self.bytes
    }

    /// The endpoint ID in lower case hex, which is read back as the same endpoint ID.
    pub fn to_hex(&self) -> (r: String)
        ensures
            r@ == hex(self@),
            is_key(self@),
            self@.len() == 32,
    {
        proof {
            use_type_invariant(self);
        }
        let mut r: String = String::new();
        for i in 0..32
            invariant
                r@ == hex(self.bytes@.take(i as int)),
        {
            let b = self.bytes[i];
            r.push(hex_char(b / 16));
            r.push(hex_char(b % 16));
            assert(self.bytes@.take(i + 1).drop_last() =~= self.bytes@.take(i as int));
        }
        assert(self.bytes@.take(32) =~= self.bytes@);
        r
    }
}

fn hex_char(d: u8) -> (c: char)
    requires
        d < 16,
    ensures
        c == hex_digit(d as int),
{
    if d < 10 {
        ('0' as u8 + d) as char
    } else {
        ('a' as u8 + (d - 10)) as char
    }
}

/// The hex notation of a key consists of hex digits, two to a byte.
pub proof fn hex_digits_only(bytes: Seq<u8>)
    ensures
        hex(bytes).len() == 2 * bytes.len(),
        forall|i: int|
            0 <= i < hex(bytes).len() ==> '0' <= #[trigger] hex(bytes)[i] <= '9' || 'a' <= hex(
                bytes,
            )[i] <= 'f',
        text::no_white(hex(bytes)),
    decreases bytes.len(),
{
    if bytes.len() > 0 {
        hex_digits_only(bytes.drop_last());
    }
}

/// The secret half of a key pair.
#[derive(Clone, Copy)]
pub struct SecretKey {
    bytes: [u8; 32],
}

impl View for SecretKey {
    type V = Seq<u8>;

    closed spec fn view(&self) -> Seq<u8> {
        self.bytes@
    }
}

impl SecretKey {
    /// The secret key with these bytes.
    pub fn from_bytes(bytes: [u8; 32]) -> (r: SecretKey)
        ensures
            r@ == bytes@,
    {
        SecretKey { bytes }
    }

    /// The bytes of the secret key.
    pub fn to_bytes(&self) -> (r: [u8; 32])
        ensures
            r@ == self@,
    {
        self.bytes
    }
}

/// The endpoint ID of an identity: the public half of its secret key.
pub fn persistent_endpoint_id(key: &SecretKey) -> (r: EndpointId)
    ensures
        r@ == public_bytes(key@),
        is_key(r@),
{
    EndpointId { bytes: derive_public_key(&key.bytes) }
}

// ---------------------------------------------------------------------------
// The key files
// ---------------------------------------------------------------------------

/// The name of the file that holds the public half of the identity.
pub const PUBLIC_KEY_FILE: &'static str = "pigeons_ed25519.pub";

/// The name of the file that holds the secret half of the identity.
pub const SECRET_KEY_FILE: &'static str = "pigeons_ed25519";

/// The permission bits of the secret key file: its owner may read and write it,
/// and nobody else may do anything with it.
pub const SECRET_KEY_MODE: u32 = 0o600;

/// Why a key file does not hold a secret key.
#[derive(Debug, Clone, Copy, PartialEq, Eq, Structural)]
pub enum SecretKeyError {
    /// A character is not z-base-32; where it stands.
    NotZ32(char, usize),
    /// The key has this many bytes instead of 32.
    Length(usize),
}

impl SecretKeyError {
    /// The error in words.
    pub open spec fn words(self) -> Seq<char> {
        match self {
            SecretKeyError::NotZ32(_, _) => "secret key is not valid z32"@,
            SecretKeyError::Length(n) => "secret key is "@ + text::decimal(n as nat)
                + " bytes, expected 32"@,
        }
    }

    /// The error in words.
    pub fn message(&self) -> (r: String)
        ensures
            r@ == self.words(),
    {
        match self {
            SecretKeyError::NotZ32(_, _) => "secret key is not valid z32".to_owned(),
            SecretKeyError::Length(n) => {
                let mut r: String = "secret key is ".to_owned();
                text::push_decimal(&mut r, *n as u64);
                r.concat(" bytes, expected 32")
            },
        }
    }
}

/// The secret key with the bytes that a key file decoded to, if they are as many
/// as a secret key has.
pub fn checked_secret_key(decoded: Vec<u8>) -> (r: Result<SecretKey, SecretKeyError>)
    ensures
        if decoded@.len() == 32 {
            r matches Ok(key) && key@ == decoded@
        } else {
            r == Err::<SecretKey, SecretKeyError>(SecretKeyError::Length(decoded.len()))
        },
{
    if decoded.len() != secret_key_length() {
        return Err(SecretKeyError::Length(decoded.len()));
    }
    let mut bytes: [u8; 32] = [0;32];
    for i in 0..32
        invariant
            decoded@.len() == 32,
            bytes@.take(i as int) == decoded@.take(i as int),
    {
        bytes[i] = decoded[i];
        assert(bytes@.take(i + 1) =~= decoded@.take(i + 1));
    }
    assert(bytes@.take(32) =~= bytes@);
    assert(decoded@.take(32) =~= decoded@);
    Ok(SecretKey { bytes })
}

/// The secret key that the content of a key file stands for, if it does: the
/// content is z-base-32 for as many bytes as a secret key has.
pub open spec fn stored_key(content: Seq<u8>) -> Option<Seq<u8>> {
    if all_z32(content) && z32_decoded_len(content.len()) == 32 {
        Some(z32_bytes(content))
    } else {
        None
    }
}

/// Decodes the content of a secret key file, which is z-base-32.
///
/// The length is checked rather than assumed: a truncated or otherwise corrupt
/// key file is reported as what it is.
pub fn decode_secret_key(encoded: &[u8]) -> (r: Result<SecretKey, SecretKeyError>)
    requires
        encoded@.len() * 5 + 7 <= usize::MAX,
    ensures
        match r {
            Ok(key) => stored_key(encoded@) == Some(key@),
            Err(SecretKeyError::Length(n)) => stored_key(encoded@) is None && all_z32(encoded@) && n
                == z32_decoded_len(encoded@.len()),
            Err(SecretKeyError::NotZ32(c, at)) => stored_key(encoded@) is None && at
                < encoded@.len() && c == encoded@[at as int] as char && !is_z32(c) && all_z32(
                encoded@.take(at as int),
            ),
        },
{
    let decoded = match z32_decode(encoded) {
        Ok(decoded) => decoded,
        Err((c, at)) => {
            return Err(SecretKeyError::NotZ32(c, at));
        },
    };
    checked_secret_key(decoded)
}

/// What the two key files of an identity hold.
#[derive(Clone)]
pub struct KeyFiles {
    pub public: String,
    pub secret: String,
}

/// The content of the key files of an identity: each half of the key in
/// z-base-32.
pub fn encode_identity(key: &SecretKey) -> (r: KeyFiles)
    ensures
        r.public@ == z32_text(public_bytes(key@)),
        r.secret@ == z32_text(key@),
{
    let id = persistent_endpoint_id(key);
    let public = z32_encode(&id.bytes);
    let secret = z32_encode(&key.bytes);
    KeyFiles { public, secret }
}

/// Where the identity of a directory comes from.
#[derive(Debug, Clone, Copy, PartialEq, Eq, Structural)]
pub enum IdentitySource {
    /// From the key files that are there.
    Load,
    /// From a new key, whose key files are then written.
    Generate,
}

/// Where the identity of a directory comes from: the key files where both are
/// there, else a new key.
pub open spec fn identity_source(public_exists: bool, secret_exists: bool) -> IdentitySource {
    if public_exists && secret_exists {
        IdentitySource::Load
    } else {
        IdentitySource::Generate
    }
}

/// What has to be done for the identity of a directory.
#[derive(Debug, Clone, Copy, PartialEq, Eq, Structural)]
pub struct IdentityPlan {
    /// Whether the directory has to be made first.
    pub create_dir: bool,
    pub source: IdentitySource,
}

/// How to come by the secret key of a directory: load the key files where both
/// are there, else make a new identity.
pub fn dot_ssh_secret_key(
    dir_exists: bool,
    public_exists: bool,
    secret_exists: bool,
) -> (r: IdentityPlan)
    ensures
        r.create_dir == !dir_exists,
        r.source == identity_source(public_exists, secret_exists),
{
    IdentityPlan {
        create_dir: !dir_exists,
        source: if public_exists && secret_exists {
            IdentitySource::Load
        } else {
            IdentitySource::Generate
        },
    }
}

/// Once an identity was generated and its key files were written, it is loaded and
/// not generated again, and what is loaded is the same key.
pub proof fn a_generated_identity_is_reloaded(key: SecretKey)
    ensures
        identity_source(true, true) == IdentitySource::Load,
        stored_key(vstd::utf8::encode_utf8(z32_text(key@))) == Some(key@),
{
    z32_reads_back(key@);
}

/// A secret key takes 52 characters. The last of them carries one bit, which is
/// taken as zero where it is missing. What is cut off by two characters or more is
/// no key, and neither is anything longer.
pub proof fn truncated_keys_are_rejected(content: Seq<u8>)
    ensures
        content.len() <= 50 ==> stored_key(content) is None,
        content.len() > 52 ==> stored_key(content) is None,
        all_z32(content) && 51 <= content.len() <= 52 ==> stored_key(content) is Some,
{
    let n = content.len();
    let q = n / 8;
    let r = n % 8;
    assert(n == 8 * q + r);
    assert(q <= 5 || q == 6 || q >= 7);
}

/// The number that a lower case hex digit stands for.
pub open spec fn hex_value(c: char) -> int {
    if '0' <= c <= '9' {
        c as int - '0' as int
    } else {
        c as int - 'a' as int + 10
    }
}

/// Hex notation reads back: the two digits of each byte make up the byte.
pub proof fn hex_notation_reads_back(bytes: Seq<u8>, i: int)
    requires
        0 <= i < bytes.len(),
    ensures
        hex(bytes).len() == 2 * bytes.len(),
        16 * hex_value(hex(bytes)[2 * i]) + hex_value(hex(bytes)[2 * i + 1]) == bytes[i],
    decreases bytes.len(),
{
    hex_digits_only(bytes);
    let init = bytes.drop_last();
    hex_digits_only(init);
    let h = hex(bytes);
    if i < init.len() {
        hex_notation_reads_back(init, i);
        assert(h[2 * i] == hex(init)[2 * i]);
        assert(h[2 * i + 1] == hex(init)[2 * i + 1]);
    } else {
        let b = bytes.last() as int;
        assert(h[2 * i] == hex_digit(b / 16));
        assert(h[2 * i + 1] == hex_digit(b % 16));
        assert(hex_value(hex_digit(b / 16)) == b / 16);
        assert(hex_value(hex_digit(b % 16)) == b % 16);
    }
}

/// Endpoints that differ are written differently.
pub proof fn hex_notations_differ(a: Seq<u8>, b: Seq<u8>)
    requires
        hex(a) == hex(b),
    ensures
        a == b,
{
    hex_digits_only(a);
    hex_digits_only(b);
    assert forall|i: int| 0 <= i < a.len() implies #[trigger] a[i] == b[i] by {
        hex_notation_reads_back(a, i);
        hex_notation_reads_back(b, i);
    }
    assert(a =~= b);
}

/// An identity is generated only where a key file is missing: key files that are
/// both there are never replaced.
pub proof fn key_files_are_not_replaced(public_exists: bool, secret_exists: bool)
    ensures
        identity_source(public_exists, secret_exists) is Generate <==> !public_exists
            || !secret_exists,
        identity_source(public_exists, secret_exists) is Load <==> public_exists && secret_exists,
{
}

/// What a key file stands for is what its characters carry: keys that differ have
/// texts that differ.
pub proof fn key_texts_differ(a: Seq<u8>, b: Seq<u8>)
    requires
        z32_text(a) == z32_text(b),
    ensures
        a == b,
{
    z32_reads_back(a);
    z32_reads_back(b);
}

/// The error about the length of a key tells the length.
pub proof fn the_length_of_a_bad_key_is_told(n: usize)
    ensures
        text::contains(SecretKeyError::Length(n).words(), text::decimal(n as nat)),
{
    text_laws::parts_stand_inside(
        "secret key is "@,
        text::decimal(n as nat),
        " bytes, expected 32"@,
    );
}

// ---------------------------------------------------------------------------
// Where the files are
// ---------------------------------------------------------------------------

/// Nothing is known about the home directory of the user.
#[derive(Debug, Clone, Copy, PartialEq, Eq, Structural)]
pub struct NoHome;

impl NoHome {
    /// The error in words.
    pub fn message(&self) -> (r: String)
        ensures
            r@ == "home directory not found"@,
    {
        "home directory not found".to_owned()
    }
}

/// The directory with the identity and the SSH configuration of the user, relative
/// to the home directory.
pub fn home_ssh_dir(has_home: bool) -> (r: Result<String, NoHome>)
    ensures
        if has_home {
            r matches Ok(dir) && dir@ == ".ssh"@
        } else {
            r is Err
        },
{
    if has_home {
        Ok(".ssh".to_owned())
    } else {
        Err(NoHome)
    }
}

} // verus!

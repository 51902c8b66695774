use blake2::Digest;
use vstd::prelude::*;

verus! {

/// A 32-byte content-addressed identifier (block ids, QC ids, transaction ids, public keys).
pub type FixedHash = [u8; 32];

/// The all-zero identifier.
pub open spec fn is_zero_spec(h: Seq<u8>) -> bool {
    forall|i: int| 0 <= i < h.len() ==> h[i] == 0u8
}

/// Compares two identifiers byte by byte.
pub fn hash_eq(a: &FixedHash, b: &FixedHash) -> (r: bool)
    ensures
        r == (a@ == b@),
{
    let mut i: usize = 0;
    while i < 32
        invariant
            i <= 32,
            a@.len() == 32,
            b@.len() == 32,
            forall|j: int| 0 <= j < i ==> a@[j] == b@[j],
        decreases 32 - i,
    {
        if a[i] != b[i] {
            return false;
        }
        i = i + 1;
    }
    assert(a@ =~= b@);
    true
}

/// True when every byte of the identifier is zero.
pub fn hash_is_zero(a: &FixedHash) -> (r: bool)
    ensures
        r == is_zero_spec(a@),
{
    let mut i: usize = 0;
    while i < 32
        invariant
            i <= 32,
            a@.len() == 32,
            forall|j: int| 0 <= j < i ==> a@[j] == 0u8,
        decreases 32 - i,
    {
        if a[i] != 0 {
            return false;
        }
        i = i + 1;
    }
    true
}

/// The lower-case hex digit of a value below 16.
pub open spec fn hex_digit(n: int) -> char {
    if n == 0 { '0' }
    else if n == 1 { '1' }
    else if n == 2 { '2' }
    else if n == 3 { '3' }
    else if n == 4 { '4' }
    else if n == 5 { '5' }
    else if n == 6 { '6' }
    else if n == 7 { '7' }
    else if n == 8 { '8' }
    else if n == 9 { '9' }
    else if n == 10 { 'a' }
    else if n == 11 { 'b' }
    else if n == 12 { 'c' }
    else if n == 13 { 'd' }
    else if n == 14 { 'e' }
    else { 'f' }
}

/// The value of a lower-case hex digit.
pub open spec fn hex_value(c: char) -> int {
    if c == '0' { 0 }
    else if c == '1' { 1 }
    else if c == '2' { 2 }
    else if c == '3' { 3 }
    else if c == '4' { 4 }
    else if c == '5' { 5 }
    else if c == '6' { 6 }
    else if c == '7' { 7 }
    else if c == '8' { 8 }
    else if c == '9' { 9 }
    else if c == 'a' { 10 }
    else if c == 'b' { 11 }
    else if c == 'c' { 12 }
    else if c == 'd' { 13 }
    else if c == 'e' { 14 }
    else { 15 }
}

/// Canonical string form of bytes: two lower-case hex digits per byte, most significant first.
pub open spec fn hex_chars(b: Seq<u8>) -> Seq<char>
    decreases b.len(),
{
    if b.len() == 0 {
        seq![]
    } else {
        seq![hex_digit(b[0] as int / 16), hex_digit(b[0] as int % 16)] + hex_chars(b.subrange(1, b.len() as int))
    }
}

/// Reads pairs of hex digits back into bytes.
pub open spec fn hex_decode(s: Seq<char>) -> Seq<u8>
    decreases s.len(),
{
    if s.len() < 2 {
        seq![]
    } else {
        seq![(hex_value(s[0]) * 16 + hex_value(s[1])) as u8] + hex_decode(s.subrange(2, s.len() as int))
    }
}

/// Hex is a faithful encoding: decoding the hex form of any bytes gives back those bytes.
pub proof fn lemma_hex_round_trip(b: Seq<u8>)
    ensures
        hex_decode(hex_chars(b)) == b,
        hex_chars(b).len() == 2 * b.len(),
    decreases b.len(),
{
    if b.len() > 0 {
        let rest = b.subrange(1, b.len() as int);
        lemma_hex_round_trip(rest);
        let s = hex_chars(b);
        let hi = b[0] as int / 16;
        let lo = b[0] as int % 16;
        assert(hex_value(hex_digit(hi)) == hi);
        assert(hex_value(hex_digit(lo)) == lo);
        assert(s.subrange(2, s.len() as int) =~= hex_chars(rest));
        assert(hex_decode(s) =~= seq![b[0]] + rest);
        assert(seq![b[0]] + rest =~= b);
    }
}

/// A lower-case hex digit.
pub open spec fn is_hex_char(c: char) -> bool {
    hex_digit(hex_value(c)) == c
}

/// Text made of lower-case hex digits only.
pub open spec fn is_lower_hex(s: Seq<char>) -> bool {
    forall|i: int| 0 <= i < s.len() ==> is_hex_char(#[trigger] s[i])
}

/// Every even-length text of lower-case hex digits is the hex form of the bytes it decodes to.
pub proof fn lemma_hex_decode_round_trip(s: Seq<char>)
    requires
        is_lower_hex(s),
        s.len() % 2 == 0,
    ensures
        hex_chars(hex_decode(s)) == s,
    decreases s.len(),
{
    if s.len() >= 2 {
        let rest = s.subrange(2, s.len() as int);
        assert forall|i: int| 0 <= i < rest.len() implies is_hex_char(#[trigger] rest[i]) by {
            assert(rest[i] == s[i + 2]);
        }
        lemma_hex_decode_round_trip(rest);
        let v0 = hex_value(s[0]);
        let v1 = hex_value(s[1]);
        assert(is_hex_char(s[0]) && is_hex_char(s[1]));
        assert(0 <= v0 < 16 && 0 <= v1 < 16);
        let x = (v0 * 16 + v1) as u8;
        assert(x as int == v0 * 16 + v1);
        assert(x as int / 16 == v0 && x as int % 16 == v1);
        let d = hex_decode(s);
        assert(d =~= seq![x] + hex_decode(rest));
        assert(d.subrange(1, d.len() as int) =~= hex_decode(rest));
        assert(hex_chars(d) =~= s);
    }
}

/// What tari_utilities reports when a string is not hex.
#[verifier::external_type_specification]
#[verifier::external_body]
pub struct ExHexError(tari_utilities::hex::HexError);

/// Relies on tari_utilities::hex::to_hex: for inputs of at most 256 KiB it writes each byte as
/// two lower-case hex digits (`{:02x}`), in order.
#[verifier::external_body]
fn encode_hex(b: &[u8]) -> (r: String)
    ensures
        b@.len() <= 262144 ==> r@ == hex_chars(b@),
{
    tari_utilities::hex::to_hex(b)
}

/// Relies on tari_utilities::hex::from_hex: a string made of lower-case hex digit pairs (no
/// whitespace, no `0x` prefix) decodes, pair by pair, to the bytes it encodes; a string of
/// lower-case hex digits of odd length fails the length check.
#[verifier::external_body]
fn decode_hex(s: &str) -> (r: Result<Vec<u8>, tari_utilities::hex::HexError>)
    ensures
        forall|b: Seq<u8>| #[trigger] hex_chars(b) == s@ ==> (r is Ok && r->Ok_0@ == b),
        is_lower_hex(s@) && s@.len() % 2 == 1 ==> r is Err,
{
    tari_utilities::hex::from_hex(s)
}

/// The hex string of an identifier.
pub fn to_hex(h: &FixedHash) -> (r: String)
    ensures
        r@ == hex_chars(h@),
        r@.len() == 64,
{
    proof {
        lemma_hex_round_trip(h@);
    }
    encode_hex(h.as_slice())
}

/// The hex string of some bytes; beyond 256 KiB the text only marks the input as too large.
pub fn bytes_to_hex(b: &[u8]) -> (r: String)
    ensures
        b@.len() <= 262144 ==> r@ == hex_chars(b@),
{
    encode_hex(b)
}

/// Parses the hex form of a 32-byte identifier; `None` when the text is not one. Of text made
/// of lower-case hex digits, exactly the 64-digit ones parse.
pub fn from_hex(s: &str) -> (r: Option<FixedHash>)
    ensures
        forall|h: FixedHash| #[trigger] hex_chars(h@) == s@ ==> r == Some(h),
        r matches Some(h) ==> h@.len() == 32,
        is_lower_hex(s@) ==> (r is Some <==> s@.len() == 64),
{
    proof {
        if is_lower_hex(s@) && s@.len() % 2 == 0 {
            lemma_hex_decode_round_trip(s@);
            lemma_hex_round_trip(hex_decode(s@));
        }
    }
    match decode_hex(s) {
        Ok(v) => {
            if v.len() != 32 {
                proof {
                    if is_lower_hex(s@) && s@.len() % 2 == 0 {
                        assert(v@ == hex_decode(s@));
                    }
                }
                return None;
            }
            let mut out: FixedHash = [0u8; 32];
            let mut i: usize = 0;
            while i < 32
                invariant
                    i <= 32,
                    v@.len() == 32,
                    out@.len() == 32,
                    forall|j: int| 0 <= j < i ==> out@[j] == v@[j],
                decreases 32 - i,
            {
                out[i] = v[i];
                i = i + 1;
            }
            assert(out@ =~= v@);
            proof {
                assert forall|h: FixedHash| #[trigger] hex_chars(h@) == s@ implies Some(out) == Some(h) by {
                    assert(v@ == h@);
                    assert(out@ == h@);
                    assert(out@[0] == h@[0]);
                    assert(out =~= h);
                }
                if is_lower_hex(s@) && s@.len() % 2 == 0 {
                    assert(v@ == hex_decode(s@));
                }
            }
            Some(out)
        },
        Err(_) => None,
    }
}

/// A digest that depends on its input alone: Blake2b with a 32-byte output.
///
/// Block and QC ids are this digest of the encodings in `model` and `votes`. The network's
/// domain-separated hashers live in crates this library does not depend on, so the ids computed
/// here identify content within this library and are not interchangeable with ids computed by
/// those hashers.
pub uninterp spec fn blake2b_256(data: Seq<u8>) -> Seq<u8>;

/// Relies on blake2::Blake2b<U32>::digest: the 32-byte Blake2b digest of the input.
#[verifier::external_body]
fn digest32(data: &[u8]) -> (r: FixedHash)
    ensures
        r@ == blake2b_256(data@),
{
    blake2::Blake2b::<blake2::digest::consts::U32>::digest(data).into()
}

/// Hashes an encoded preimage into an identifier.
pub fn hash_bytes(data: &Vec<u8>) -> (r: FixedHash)
    ensures
        r@ == blake2b_256(data@),
{
    digest32(data.as_slice())
}

} // verus!

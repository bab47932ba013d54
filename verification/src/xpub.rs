//! Extended public keys: base58check re-encoding between the BIP44/49/84
//! version prefixes, key fingerprints, the Bitcoin Core output descriptor with
//! its checksum, and receive-address derivation.

use vstd::prelude::*;
use vstd::utf8::*;

use crate::network::Network;
use crate::text::{
    before_first, bytes_range, occurs, chars_of, find_char, string_from_range, bytes_to_hex_lower, extend_bytes, find_byte, find_from, hex_lower, i64_to_decimal,
    lemma_find_from, push_all, push_char, signed_decimal,
};

verus! {

// ---------------------------------------------------------------------------
// Descriptor checksum (the algorithm of Bitcoin Core's descriptor.cpp)
// ---------------------------------------------------------------------------

/// The characters a descriptor may hold, in the order that gives each its
/// position: `0123456789()[],'/*abcdefgh@:$%{}IJKLMNOPQRSTUVWXYZ&+-.;<=>?!^_|~`
/// `ijklmnopqrstuvwxyzABCDEFGH` followed by backquote, `#`, `"`, backslash and space.
pub open spec fn input_charset() -> Seq<u8> {
    seq![
        48u8, 49, 50, 51, 52, 53, 54, 55, 56, 57, 40, 41, 91, 93, 44, 39, 47, 42, 97, 98, 99,
        100, 101, 102, 103, 104, 64, 58, 36, 37, 123, 125, 73, 74, 75, 76, 77, 78, 79, 80, 81,
        82, 83, 84, 85, 86, 87, 88, 89, 90, 38, 43, 45, 46, 59, 60, 61, 62, 63, 33, 94, 95, 124,
        126, 105, 106, 107, 108, 109, 110, 111, 112, 113, 114, 115, 116, 117, 118, 119, 120, 121,
        122, 65, 66, 67, 68, 69, 70, 71, 72, 96, 35, 34, 92, 32,
    ]
}

/// The 32 characters of the checksum alphabet, `qpzry9x8gf2tvdw0s3jn54khce6mua7l`.
pub open spec fn checksum_charset() -> Seq<u8> {
    seq![
        113u8, 112, 122, 114, 121, 57, 120, 56, 103, 102, 50, 116, 118, 100, 119, 48, 115, 51,
        106, 110, 53, 52, 107, 104, 99, 101, 54, 109, 117, 97, 55, 108,
    ]
}

fn input_charset_table() -> (t: [u8; 95])
    ensures
        t@ == input_charset(),
{
    let t: [u8; 95] = [
        48u8, 49, 50, 51, 52, 53, 54, 55, 56, 57, 40, 41, 91, 93, 44, 39, 47, 42, 97, 98, 99,
        100, 101, 102, 103, 104, 64, 58, 36, 37, 123, 125, 73, 74, 75, 76, 77, 78, 79, 80, 81,
        82, 83, 84, 85, 86, 87, 88, 89, 90, 38, 43, 45, 46, 59, 60, 61, 62, 63, 33, 94, 95, 124,
        126, 105, 106, 107, 108, 109, 110, 111, 112, 113, 114, 115, 116, 117, 118, 119, 120, 121,
        122, 65, 66, 67, 68, 69, 70, 71, 72, 96, 35, 34, 92, 32,
    ];
    assert(t@ =~= input_charset());
    t
}

fn checksum_charset_table() -> (t: [u8; 32])
    ensures
        t@ == checksum_charset(),
{
    let t: [u8; 32] = [
        113u8, 112, 122, 114, 121, 57, 120, 56, 103, 102, 50, 116, 118, 100, 119, 48, 115, 51,
        106, 110, 53, 52, 107, 104, 99, 101, 54, 109, 117, 97, 55, 108,
    ];
    assert(t@ =~= checksum_charset());
    t
}

/// One step of the descriptor checksum's polynomial reduction (the
/// generator of Bitcoin Core's `PolyMod`).
pub open spec fn poly_mod_spec(c: u64, val: u64) -> u64 {
    let c0 = c >> 35u64;
    let c1 = ((c & 0x7ffffffffu64) << 5u64) ^ val;
    let c2 = if c0 & 1 > 0 { c1 ^ 0xf5dee51989u64 } else { c1 };
    let c3 = if c0 & 2 > 0 { c2 ^ 0xa9fdca3312u64 } else { c2 };
    let c4 = if c0 & 4 > 0 { c3 ^ 0x1bab10e32du64 } else { c3 };
    let c5 = if c0 & 8 > 0 { c4 ^ 0x3706b1677au64 } else { c4 };
    if c0 & 16 > 0 { c5 ^ 0x644d626ffdu64 } else { c5 }
}

/// Polynomial modulo step used by the descriptor checksum.
pub fn poly_mod(c: u64, val: u64) -> (r: u64)
    ensures
        r == poly_mod_spec(c, val),
{
    let mut c = c;
    let c0 = c >> 35u64;
    c = ((c & 0x7ffffffffu64) << 5u64) ^ val;
    if c0 & 1 > 0 {
        c ^= 0xf5dee51989u64;
    }
    if c0 & 2 > 0 {
        c ^= 0xa9fdca3312u64;
    }
    if c0 & 4 > 0 {
        c ^= 0x1bab10e32du64;
    }
    if c0 & 8 > 0 {
        c ^= 0x3706b1677au64;
    }
    if c0 & 16 > 0 {
        c ^= 0x644d626ffdu64;
    }
    c
}

/// The checksum state after one more descriptor character at charset position
/// `pos`: the low five bits go straight into the polynomial, the high bits are
/// grouped three at a time.
pub open spec fn checksum_step(st: (u64, u64, u64), pos: u64) -> (u64, u64, u64) {
    let c = poly_mod_spec(st.0, pos & 31u64);
    let cls = (st.1 * 3 + (pos >> 5u64)) as u64;
    let count = (st.2 + 1) as u64;
    if count == 3 {
        (poly_mod_spec(c, cls), 0, 0)
    } else {
        (c, cls, count)
    }
}

/// The charset position of a byte (95 when the byte is not allowed).
pub open spec fn charset_pos(b: u8) -> int {
    find_from(input_charset(), b, 0)
}

/// The checksum state after a run of descriptor bytes, or the first byte that
/// is not in the descriptor charset.
pub open spec fn checksum_scan(body: Seq<u8>) -> Result<(u64, u64, u64), u8>
    decreases body.len(),
{
    if body.len() == 0 {
        Ok((1, 0, 0))
    } else {
        match checksum_scan(body.drop_last()) {
            Err(b) => Err(b),
            Ok(st) => {
                if charset_pos(body.last()) >= 95 {
                    Err(body.last())
                } else {
                    Ok(checksum_step(st, charset_pos(body.last()) as u64))
                }
            },
        }
    }
}

/// `poly_mod` applied `n` times with a zero value.
pub open spec fn poly_mod_zeros(c: u64, n: nat) -> u64
    decreases n,
{
    if n == 0 {
        c
    } else {
        poly_mod_spec(poly_mod_zeros(c, (n - 1) as nat), 0)
    }
}

/// The final checksum value: flush a pending group, shift in eight zero
/// symbols, and flip the lowest bit.
pub open spec fn checksum_final(st: (u64, u64, u64)) -> u64 {
    let c = if st.2 > 0 { poly_mod_spec(st.0, st.1) } else { st.0 };
    poly_mod_zeros(c, 8) ^ 1u64
}

/// The eight checksum characters of a final checksum value, five bits each,
/// most significant first.
pub open spec fn checksum_symbols(c: u64) -> Seq<char> {
    Seq::new(8, |j: int| checksum_charset()[((c >> ((5 * (7 - j)) as u64)) & 31u64) as int] as char)
}

/// The descriptor bytes that the checksum covers: everything before the first `#`.
pub open spec fn descriptor_body(bytes: Seq<u8>) -> Seq<u8> {
    bytes.subrange(0, find_from(bytes, 35u8, 0))
}

/// What `calc_checksum` returns for a descriptor's UTF-8 bytes: the eight
/// checksum characters, or the message naming the first byte outside the charset.
pub open spec fn calc_checksum_spec(desc: Seq<u8>) -> Result<Seq<char>, Seq<char>> {
    match checksum_scan(descriptor_body(desc)) {
        Err(b) => Err("Invalid character in descriptor: "@.push(b as char)),
        Ok(st) => Ok(checksum_symbols(checksum_final(st))),
    }
}

proof fn lemma_small_bits(p: u64)
    requires
        p < 95,
    ensures
        (p >> 5u64) <= 2,
        (p & 31u64) < 32,
{
    assert(p < 95 ==> (p >> 5u64) <= 2) by (bit_vector);
    assert((p & 31u64) < 32) by (bit_vector);
}

proof fn lemma_five_bits(c: u64, s: u64)
    ensures
        ((c >> s) & 31u64) < 32,
{
    assert(((c >> s) & 31u64) < 32) by (bit_vector);
}

/// Checksum of a Bitcoin Core output descriptor (everything from the first `#`
/// on is ignored).
pub fn calc_checksum(desc: &str) -> (res: Result<String, String>)
    ensures
        match calc_checksum_spec(encode_utf8(desc@)) {
            Ok(cs) => res matches Ok(s) && s@ == cs,
            Err(m) => res matches Err(e) && e@ == m,
        },
        res matches Ok(s) ==> s@.len() == 8 && forall|k: int| 0 <= k < 8 ==> exists|j: int|
            0 <= j < 32 && #[trigger] s@[k] == checksum_charset()[j] as char,
{
    let bytes = desc.as_bytes();
    let end = find_byte(bytes, 35u8, 0);
    let ghost body = descriptor_body(bytes@);
    proof {
        lemma_find_from(bytes@, 35u8, 0);
    }
    let table = input_charset_table();
    let mut c: u64 = 1;
    let mut cls: u64 = 0;
    let mut clscount: u64 = 0;
    let mut i: usize = 0;
    while i < end
        invariant
            end <= bytes@.len(),
            body == bytes@.subrange(0, end as int),
            body == descriptor_body(encode_utf8(desc@)),
            bytes@ == encode_utf8(desc@),
            table@ == input_charset(),
            i <= end,
            checksum_scan(body.take(i as int)) == Ok::<(u64, u64, u64), u8>((c, cls, clscount)),
            clscount < 3,
            clscount == 0 ==> cls == 0,
            clscount == 1 ==> cls < 3,
            clscount == 2 ==> cls < 9,
        decreases end - i,
    {
        let ch = bytes[i];
        let pos = find_byte(&table, ch, 0);
        proof {
            lemma_find_from(table@, ch, 0);
            assert(body.take(i + 1).drop_last() =~= body.take(i as int));
            assert(body.take(i + 1).last() == ch);
        }
        if pos >= 95 {
            let mut msg = "Invalid character in descriptor: ".to_string();
            push_char(&mut msg, ch as char);
            proof {
                assert(checksum_scan(body.take(i + 1)) == Err::<(u64, u64, u64), u8>(ch));
                lemma_scan_error_persists(body, i as int + 1);
                assert(checksum_scan(body) == Err::<(u64, u64, u64), u8>(ch));
            }
            return Err(msg);
        }
        let p = pos as u64;
        proof {
            lemma_small_bits(p);
        }
        c = poly_mod(c, p & 31u64);
        cls = cls * 3 + (p >> 5u64);
        clscount += 1;
        if clscount == 3 {
            c = poly_mod(c, cls);
            cls = 0;
            clscount = 0;
        }
        i += 1;
    }
    assert(body.take(i as int) =~= body);
    if clscount > 0 {
        c = poly_mod(c, cls);
    }
    let ghost c_flushed = c;
    let mut k: usize = 0;
    while k < 8
        invariant
            k <= 8,
            c == poly_mod_zeros(c_flushed, k as nat),
        decreases 8 - k,
    {
        c = poly_mod(c, 0);
        k += 1;
    }
    c ^= 1u64;
    let charset = checksum_charset_table();
    let mut checksum = String::new();
    let mut j: u64 = 0;
    while j < 8
        invariant
            j <= 8,
            charset@ == checksum_charset(),
            checksum@ == checksum_symbols(c).take(j as int),
        decreases 8 - j,
    {
        proof {
            lemma_five_bits(c, (5 * (7 - j)) as u64);
        }
        let idx = ((c >> (5 * (7 - j))) & 31u64) as usize;
        push_char(&mut checksum, charset[idx] as char);
        assert(checksum_symbols(c).take(j + 1) =~= checksum_symbols(c).take(j as int).push(
            checksum_symbols(c)[j as int],
        ));
        j += 1;
    }
    assert(checksum_symbols(c).take(8) =~= checksum_symbols(c));
    proof {
        assert forall|k: int| 0 <= k < 8 implies exists|j: int|
            0 <= j < 32 && #[trigger] checksum@[k] == checksum_charset()[j] as char by {
            lemma_five_bits(c, (5 * (7 - k)) as u64);
            let j = ((c >> ((5 * (7 - k)) as u64)) & 31u64) as int;
            assert(checksum@[k] == checksum_charset()[j] as char);
        }
    }
    Ok(checksum)
}

proof fn lemma_scan_error_persists(body: Seq<u8>, i: int)
    requires
        0 < i <= body.len(),
        checksum_scan(body.take(i)) is Err,
    ensures
        checksum_scan(body) == checksum_scan(body.take(i)),
    decreases body.len() - i,
{
    if i < body.len() {
        assert(body.take(i + 1).drop_last() =~= body.take(i));
        lemma_scan_error_persists(body, i + 1);
    } else {
        assert(body.take(i) =~= body);
    }
}


// ---------------------------------------------------------------------------
// Outside calls: base58 (bs58), SHA-256 (sha2), BIP32 keys and addresses (bitcoin)
// ---------------------------------------------------------------------------

/// What `bs58::decode(s).into_vec()` yields: the bytes, or the text of its
/// error (`bs58::decode::Error`'s `Display`).
pub uninterp spec fn bs58_decoded(s: Seq<char>) -> Result<Seq<u8>, Seq<char>>;

/// The text that `bs58::encode(data).into_string()` yields.
pub uninterp spec fn bs58_encoded(data: Seq<u8>) -> Seq<char>;

/// The SHA-256 digest of `data` (`sha2::Sha256::digest`).
pub uninterp spec fn sha256_digest(data: Seq<u8>) -> Seq<u8>;

/// The 4-byte BIP32 fingerprint of the extended public key that a string
/// encodes, if `bitcoin::bip32::Xpub::from_str` accepts it.
pub uninterp spec fn xpub_fingerprint_of(s: Seq<char>) -> Option<Seq<u8>>;

/// The 33-byte compressed public key reached by deriving the extended public
/// key `xpub` along the BIP32 path `path`, if both parse and derivation succeeds.
pub uninterp spec fn derived_public_key(xpub: Seq<char>, path: Seq<char>) -> Option<Seq<u8>>;

/// The P2WPKH address (its text) that pays to a compressed public key on a network.
pub uninterp spec fn p2wpkh_address_of(pubkey: Seq<u8>, network: Network) -> Option<Seq<char>>;

/// Base58 decoding with the Bitcoin alphabet (`bs58::decode(s).into_vec()`).
/// Claims: the result, bytes or error text, is the named decoding of `s`;
/// decoding succeeds only on ASCII input (bs58 rejects any byte above 127
/// before looking it up); and encoding the bytes gives `s` back (each
/// leading `1` decodes to a zero byte and the rest to the number's minimal
/// big-endian bytes, which encode to the same digits).
#[verifier::external_body]
fn bs58_decode(s: &str) -> (r: Result<Vec<u8>, String>)
    ensures
        match bs58_decoded(s@) {
            Ok(d) => r matches Ok(v) && v@ == d,
            Err(m) => r matches Err(e) && e@ == m,
        },
        r is Ok ==> vstd::utf8::is_ascii_chars(s@),
        r matches Ok(v) ==> bs58_encoded(v@) == s@,
{
    match bs58::decode(s).into_vec() {
        Ok(v) => Ok(v),
        Err(e) => Err(e.to_string()),
    }
}

/// Whether a decoding succeeded with the bytes `d`.
pub open spec fn decodes_to(r: Result<Seq<u8>, Seq<char>>, d: Seq<u8>) -> bool {
    r == Ok::<Seq<u8>, Seq<char>>(d)
}

/// A character of the Bitcoin base58 alphabet
/// (`123456789ABCDEFGHJKLMNPQRSTUVWXYZabcdefghijkmnopqrstuvwxyz`).
pub open spec fn is_base58_char(c: char) -> bool {
    ('1' <= c && c <= '9') || ('A' <= c && c <= 'Z' && c != 'I' && c != 'O') || ('a' <= c && c
        <= 'z' && c != 'l')
}

/// Text written in the base58 alphabet.
pub open spec fn is_base58_text(s: Seq<char>) -> bool {
    forall|k: int| 0 <= k < s.len() ==> is_base58_char(#[trigger] s[k])
}

/// Base58 encoding with the Bitcoin alphabet (`bs58::encode(data).into_string()`).
/// Claims: the result is the named encoding, written in the alphabet, and
/// decoding it gives `data` back (base58 maps byte strings one to one onto
/// strings of its alphabet, leading zero bytes becoming leading `1`s).
#[verifier::external_body]
fn bs58_encode(data: &[u8]) -> (r: String)
    ensures
        r@ == bs58_encoded(data@),
        is_base58_text(r@),
        decodes_to(bs58_decoded(r@), data@),
{
    bs58::encode(data).into_string()
}

/// SHA-256 (`sha2::Sha256::digest`). Claims: the result is the named digest,
/// 32 bytes long.
#[verifier::external_body]
fn sha256(data: &[u8]) -> (h: Vec<u8>)
    ensures
        h@ == sha256_digest(data@),
        h@.len() == 32,
{
    <sha2::Sha256 as sha2::Digest>::digest(data).to_vec()
}

/// Parses an extended public key (`bitcoin::bip32::Xpub::from_str`) and takes
/// its fingerprint (`Xpub::fingerprint`). Claims: success exactly when the
/// named fingerprint exists, and then the four bytes are it. The error text
/// (`bip32::Error`'s `Display`) is not described.
#[verifier::external_body]
fn xpub_fingerprint(s: &str) -> (r: Result<[u8; 4], String>)
    ensures
        r is Ok <==> xpub_fingerprint_of(s@) is Some,
        r matches Ok(fp) ==> xpub_fingerprint_of(s@) == Some(fp@),
{
    match s.parse::<bitcoin::bip32::Xpub>() {
        Ok(x) => Ok(x.fingerprint().to_bytes()),
        Err(e) => Err(e.to_string()),
    }
}

/// Parses an extended public key and a derivation path
/// (`Xpub::from_str`, `DerivationPath::from_str`), derives along the path
/// (`Xpub::derive_pub`) and serializes the compressed public key
/// (`PublicKey::serialize`). Claims: success exactly when the named key
/// exists, and then the bytes are it. Error texts are not described.
#[verifier::external_body]
fn derive_public_key(xpub: &str, path: &str) -> (r: Result<Vec<u8>, String>)
    ensures
        r is Ok <==> derived_public_key(xpub@, path@) is Some,
        r matches Ok(k) ==> derived_public_key(xpub@, path@) == Some(k@),
{
    let key = match xpub.parse::<bitcoin::bip32::Xpub>() {
        Ok(k) => k,
        Err(e) => return Err(e.to_string()),
    };
    let derivation = match path.parse::<bitcoin::bip32::DerivationPath>() {
        Ok(d) => d,
        Err(e) => return Err(e.to_string()),
    };
    match key.derive_pub(&bitcoin::secp256k1::Secp256k1::new(), &derivation) {
        Ok(child) => Ok(child.public_key.serialize().to_vec()),
        Err(e) => Err(e.to_string()),
    }
}

/// The P2WPKH address of a public key: `WPubkeyHash::hash` of its bytes,
/// `ScriptBuf::new_p2wpkh`, `Address::from_script` on the network, and the
/// address's text. Claims: success exactly when the named address exists,
/// and then the text is it. The error text is not described.
#[verifier::external_body]
fn p2wpkh_address(pubkey: &[u8], network: Network) -> (r: Result<String, String>)
    ensures
        r is Ok <==> p2wpkh_address_of(pubkey@, network) is Some,
        r matches Ok(a) ==> p2wpkh_address_of(pubkey@, network) == Some(a@),
{
    let net = match network {
        Network::Bitcoin => bitcoin::Network::Bitcoin,
        Network::Testnet => bitcoin::Network::Testnet,
        Network::Testnet4 => bitcoin::Network::Testnet4,
        Network::Signet => bitcoin::Network::Signet,
        Network::Regtest => bitcoin::Network::Regtest,
    };
    let hash = <bitcoin::WPubkeyHash as bitcoin::hashes::Hash>::hash(pubkey);
    let script = bitcoin::ScriptBuf::new_p2wpkh(&hash);
    match bitcoin::Address::from_script(&script, net) {
        Ok(a) => Ok(a.to_string()),
        Err(e) => Err(e.to_string()),
    }
}

// ---------------------------------------------------------------------------
// Base58check and version prefixes
// ---------------------------------------------------------------------------

/// SLIP-132 version prefixes of extended public keys.
#[derive(Clone, Copy, Debug, PartialEq, Eq, Structural)]
pub enum BS58Prefix {
    /// `xpub`: mainnet, legacy P2PKH.
    Xpub,
    /// `ypub`: mainnet, nested SegWit.
    Ypub,
    /// `zpub`: mainnet, native SegWit.
    Zpub,
    /// `tpub`: testnet, legacy P2PKH.
    Tpub,
    /// `vpub`: testnet, nested SegWit.
    Vpub,
    /// `upub`: regtest, nested SegWit.
    Upub,
}

/// The four version bytes of a prefix.
pub open spec fn prefix_bytes(p: BS58Prefix) -> Seq<u8> {
    match p {
        BS58Prefix::Xpub => seq![0x04u8, 0x88, 0xB2, 0x1E],
        BS58Prefix::Ypub => seq![0x04u8, 0x9D, 0x7C, 0xB2],
        BS58Prefix::Zpub => seq![0x04u8, 0xB2, 0x47, 0x46],
        BS58Prefix::Tpub => seq![0x04u8, 0x35, 0x87, 0xCF],
        BS58Prefix::Vpub => seq![0x04u8, 0x5F, 0x1C, 0xF6],
        BS58Prefix::Upub => seq![0x04u8, 0x4A, 0x52, 0x62],
    }
}

fn prefix_array(p: BS58Prefix) -> (a: [u8; 4])
    ensures
        a@ == prefix_bytes(p),
{
    let a: [u8; 4] = match p {
        BS58Prefix::Xpub => [0x04u8, 0x88, 0xB2, 0x1E],
        BS58Prefix::Ypub => [0x04u8, 0x9D, 0x7C, 0xB2],
        BS58Prefix::Zpub => [0x04u8, 0xB2, 0x47, 0x46],
        BS58Prefix::Tpub => [0x04u8, 0x35, 0x87, 0xCF],
        BS58Prefix::Vpub => [0x04u8, 0x5F, 0x1C, 0xF6],
        BS58Prefix::Upub => [0x04u8, 0x4A, 0x52, 0x62],
    };
    assert(a@ =~= prefix_bytes(p));
    a
}

/// SHA-256 applied twice.
pub open spec fn double_sha256(data: Seq<u8>) -> Seq<u8> {
    sha256_digest(sha256_digest(data))
}

/// What `base58check_decode` yields: base58-decode, split off the last four
/// bytes, and keep the rest if they are the first four bytes of its double
/// SHA-256; otherwise the base58 error, `Data troppo corta` (fewer than four
/// bytes) or `Checksum invalido`.
pub open spec fn base58check_decode_result(s: Seq<char>) -> Result<Seq<u8>, Seq<char>> {
    match bs58_decoded(s) {
        Err(m) => Err(m),
        Ok(data) => {
            if data.len() < 4 {
                Err("Data troppo corta"@)
            } else {
                let payload = data.subrange(0, data.len() - 4);
                if double_sha256(payload).subrange(0, 4) == data.subrange(
                    data.len() - 4,
                    data.len() as int,
                ) {
                    Ok(payload)
                } else {
                    Err("Checksum invalido"@)
                }
            }
        },
    }
}

/// The payload of a base58check string, if it has one.
pub open spec fn base58check_decode_spec(s: Seq<char>) -> Option<Seq<u8>> {
    match base58check_decode_result(s) {
        Ok(p) => Some(p),
        Err(_) => None,
    }
}

/// The base58check text of a payload: base58 of the payload followed by the
/// first four bytes of its double SHA-256.
pub open spec fn base58check_encode_spec(data: Seq<u8>) -> Seq<char> {
    bs58_encoded(data + double_sha256(data).subrange(0, 4))
}

/// Decodes base58check text into its payload.
pub fn base58check_decode(s: &str) -> (r: Result<Vec<u8>, String>)
    ensures
        match base58check_decode_result(s@) {
            Ok(p) => r matches Ok(v) && v@ == p,
            Err(m) => r matches Err(e) && e@ == m,
        },
        r is Ok ==> vstd::utf8::is_ascii_chars(s@),
        r matches Ok(v) ==> base58check_encode_spec(v@) == s@,
{
    let data = match bs58_decode(s) {
        Ok(d) => d,
        Err(e) => return Err(e),
    };
    if data.len() < 4 {
        return Err("Data troppo corta".to_string());
    }
    let split = data.len() - 4;
    let payload = bytes_range(data.as_slice(), 0, split);
    let h1 = sha256(payload.as_slice());
    let h2 = sha256(h1.as_slice());
    let mut i: usize = 0;
    while i < 4
        invariant
            i <= 4,
            split + 4 == data@.len(),
            split + 4 == data.len(),
            h2@.len() == 32,
            h2@ == double_sha256(payload@),
            decodes_to(bs58_decoded(s@), data@),
            bs58_encoded(data@) == s@,
            payload@ == data@.subrange(0, split as int),
            forall|k: int| 0 <= k < i ==> h2@[k] == data@[split + k],
        decreases 4 - i,
    {
        if h2[i] != data[split + i] {
            assert(double_sha256(payload@).subrange(0, 4)[i as int] != data@.subrange(
                split as int,
                data@.len() as int,
            )[i as int]);
            return Err("Checksum invalido".to_string());
        }
        i += 1;
    }
    assert(double_sha256(payload@).subrange(0, 4) =~= data@.subrange(split as int, data@.len() as int));
    assert(payload@ + double_sha256(payload@).subrange(0, 4) =~= data@);
    Ok(payload)
}

/// Encodes a payload as base58check text.
pub fn base58check_encode(data: &[u8]) -> (r: String)
    ensures
        r@ == base58check_encode_spec(data@),
        is_base58_text(r@),
        base58check_decode_spec(r@) == Some(data@),
{
    let h1 = sha256(data);
    let h2 = sha256(h1.as_slice());
    let mut full = bytes_range(data, 0, data.len());
    assert(data@.subrange(0, data@.len() as int) =~= data@);
    let checksum = bytes_range(h2.as_slice(), 0, 4);
    extend_bytes(&mut full, checksum.as_slice());
    let r = bs58_encode(full.as_slice());
    proof {
        let f = full@;
        assert(f.subrange(0, f.len() - 4) =~= data@);
        assert(f.subrange(f.len() - 4, f.len() as int) =~= double_sha256(data@).subrange(0, 4));
    }
    r
}

/// What `convert_to` yields: the base58check text of the same key with its
/// four version bytes replaced by those of `p`; or the decoding error, or
/// `Non è una zpub valida.` when the payload is shorter than four bytes.
pub open spec fn convert_to_result(s: Seq<char>, p: BS58Prefix) -> Result<Seq<char>, Seq<char>> {
    match base58check_decode_result(s) {
        Err(m) => Err(m),
        Ok(payload) => {
            if payload.len() < 4 {
                Err("Non è una zpub valida."@)
            } else {
                Ok(base58check_encode_spec(prefix_bytes(p) + payload.subrange(4, payload.len() as int)))
            }
        },
    }
}

/// The text that `convert_to` yields, if it succeeds.
pub open spec fn convert_to_spec(s: Seq<char>, p: BS58Prefix) -> Option<Seq<char>> {
    match convert_to_result(s, p) {
        Ok(t) => Some(t),
        Err(_) => None,
    }
}

/// Re-encodes an extended key with another version prefix (for example a
/// `zpub` as an `xpub`).
pub fn convert_to(zpub: &str, prefix: BS58Prefix) -> (r: Result<String, String>)
    ensures
        match convert_to_result(zpub@, prefix) {
            Ok(t) => r matches Ok(s) && s@ == t,
            Err(m) => r matches Err(e) && e@ == m,
        },
        r is Ok ==> vstd::utf8::is_ascii_chars(zpub@),
        (base58check_decode_spec(zpub@) matches Some(p) && p.len() >= 4 && p.subrange(0, 4)
            == prefix_bytes(prefix)) ==> (r matches Ok(t) && t@ == zpub@),
        r matches Ok(t) ==> is_base58_text(t@),
        r matches Ok(t) ==> (base58check_decode_spec(t@) matches Some(q) && q.len() >= 4
            && q.subrange(0, 4) == prefix_bytes(prefix)),
        r matches Ok(t) ==> forall|q: BS58Prefix| #[trigger] convert_to_spec(t@, q) == convert_to_spec(zpub@, q),
        match base58check_decode_spec(zpub@) {
            Some(p) => p.len() >= 4 ==> (r matches Ok(t) && base58check_decode_spec(t@) == Some(
                prefix_bytes(prefix) + p.subrange(4, p.len() as int),
            )),
            None => true,
        },
{
    let data = base58check_decode(zpub)?;
    if data.len() < 4 {
        return Err("Non è una zpub valida.".to_string());
    }
    proof {
        if data@.subrange(0, 4) == prefix_bytes(prefix) {
            assert(prefix_bytes(prefix) + data@.subrange(4, data@.len() as int) =~= data@);
        }
    }
    let head = prefix_array(prefix);
    let mut replaced = bytes_range(&head, 0, 4);
    assert(head@.subrange(0, 4) =~= head@);
    let rest = bytes_range(data.as_slice(), 4, data.len());
    extend_bytes(&mut replaced, rest.as_slice());
    let t = base58check_encode(replaced.as_slice());
    proof {
        let q0 = replaced@;
        assert(q0.subrange(0, 4) =~= prefix_bytes(prefix));
        assert forall|q: BS58Prefix| #[trigger] convert_to_spec(t@, q) == convert_to_spec(zpub@, q) by {
            assert(q0.subrange(4, q0.len() as int) =~= data@.subrange(4, data@.len() as int));
        }
    }
    Ok(t)
}

/// What `calculate_fingerprint` yields: the lowercase hex fingerprint of the
/// key once re-encoded with the mainnet `xpub` prefix.
pub open spec fn fingerprint_spec(s: Seq<char>) -> Option<Seq<char>> {
    match convert_to_spec(s, BS58Prefix::Xpub) {
        None => None,
        Some(x) => match xpub_fingerprint_of(x) {
            None => None,
            Some(fp) => Some(hex_lower(fp)),
        },
    }
}

/// The BIP32 fingerprint of an extended public key of any supported prefix,
/// as eight lowercase hex digits.
pub fn calculate_fingerprint(tpub: &str) -> (r: Result<String, String>)
    ensures
        match fingerprint_spec(tpub@) {
            Some(f) => r matches Ok(s) && s@ == f,
            None => r is Err,
        },
        r is Ok ==> vstd::utf8::is_ascii_chars(tpub@),
        r matches Ok(s) ==> is_lower_hex_text(s@),
        convert_to_result(tpub@, BS58Prefix::Xpub) matches Err(m) ==> (r matches Err(e) && e@ == m),
{
    let converted = convert_to(tpub, BS58Prefix::Xpub)?;
    match xpub_fingerprint(converted.as_str()) {
        Ok(fp) => {
            let h = bytes_to_hex_lower(&fp);
            proof {
                lemma_hex_lower_text(fp@);
            }
            Ok(h)
        },
        Err(e) => {
            let mut msg = "Invalid xpub: ".to_string();
            push_all(&mut msg, e.as_str());
            Err(msg)
        },
    }
}


// ---------------------------------------------------------------------------
// Descriptors and addresses
// ---------------------------------------------------------------------------

/// Which prefix an extended key is re-encoded with for Bitcoin Core: mainnet
/// keys (`xpub`, `ypub`, `zpub`) as `xpub`, test keys (`tpub`, `vpub`, `upub`)
/// as `tpub`, judged on the first four bytes of the text.
pub open spec fn xpub_family(b: Seq<u8>) -> Option<BS58Prefix> {
    if b.len() >= 4 && b[1] == 0x70u8 && b[2] == 0x75u8 && b[3] == 0x62u8 {
        if b[0] == 0x78u8 || b[0] == 0x79u8 || b[0] == 0x7au8 {
            Some(BS58Prefix::Xpub)
        } else if b[0] == 0x74u8 || b[0] == 0x76u8 || b[0] == 0x75u8 {
            Some(BS58Prefix::Tpub)
        } else {
            None
        }
    } else {
        None
    }
}

/// The first letters of test-network key prefixes: `t`, `u`, `v`.
pub open spec fn is_test_key_letter(c: u8) -> bool {
    c == 0x74u8 || c == 0x75u8 || c == 0x76u8
}

/// The first letters of mainnet key prefixes: `x`, `y`, `z`.
pub open spec fn is_main_key_letter(c: u8) -> bool {
    c == 0x78u8 || c == 0x79u8 || c == 0x7au8
}

/// The family of a key is fixed by its first letter once `pub` follows it:
/// `tpub`, `upub` and `vpub` keys are written with the `tpub` version bytes
/// 04 35 87 CF, `xpub`, `ypub` and `zpub` keys with the `xpub` version bytes
/// 04 88 B2 1E, and any other text is no key.
pub proof fn lemma_key_family_by_first_letter(b: Seq<u8>)
    requires
        b.len() >= 4,
        b.subrange(1, 4) == seq![0x70u8, 0x75u8, 0x62u8],
    ensures
        is_test_key_letter(b[0]) ==> (xpub_family(b) matches Some(p)
            && prefix_bytes(p) == seq![0x04u8, 0x35u8, 0x87u8, 0xCFu8]),
        is_main_key_letter(b[0]) ==> (xpub_family(b) matches Some(p)
            && prefix_bytes(p) == seq![0x04u8, 0x88u8, 0xB2u8, 0x1Eu8]),
        !is_test_key_letter(b[0]) && !is_main_key_letter(b[0]) ==> xpub_family(b) is None,
{
    assert(b.subrange(1, 4)[0] == b[1]);
    assert(b.subrange(1, 4)[1] == b[2]);
    assert(b.subrange(1, 4)[2] == b[3]);
}

/// What `convert_xpub` yields for a key it accepts.
pub open spec fn convert_xpub_spec(s: Seq<char>) -> Option<Seq<char>> {
    match xpub_family(encode_utf8(s)) {
        None => None,
        Some(p) => convert_to_spec(s, p),
    }
}

/// Re-encodes a mainnet key as `xpub` and a test key as `tpub`.
pub fn convert_xpub(xpub: &str) -> (r: Result<String, String>)
    requires
        encode_utf8(xpub@).len() >= 4 ==> is_char_boundary(encode_utf8(xpub@), 4),
    ensures
        match xpub_family(encode_utf8(xpub@)) {
            None => r matches Err(e) && e@
                == "Invalid xpub prefix: expected xpub, ypub, zpub, tpub, vpub, or upub"@,
            Some(p) => match convert_to_result(xpub@, p) {
                Ok(t) => r matches Ok(s) && s@ == t,
                Err(m) => r matches Err(e) && e@ == m,
            },
        },
        r matches Ok(t) ==> is_base58_text(t@),
        r matches Ok(t) ==> (base58check_decode_spec(t@) matches Some(q) && q.len() >= 4 && q.subrange(0, 4)
            == (if is_test_key_letter(encode_utf8(xpub@)[0]) {
                seq![0x04u8, 0x35u8, 0x87u8, 0xCFu8]
            } else {
                seq![0x04u8, 0x88u8, 0xB2u8, 0x1Eu8]
            })),
        r is Ok ==> encode_utf8(xpub@).len() >= 4 && encode_utf8(xpub@).subrange(1, 4) == seq![0x70u8, 0x75u8, 0x62u8]
            && (is_test_key_letter(encode_utf8(xpub@)[0]) || is_main_key_letter(encode_utf8(xpub@)[0])),
{
    let b = xpub.as_bytes();
    if b.len() >= 4 && b[1] == 0x70u8 && b[2] == 0x75u8 && b[3] == 0x62u8 {
        if b[0] == 0x78u8 || b[0] == 0x79u8 || b[0] == 0x7au8 {
            return convert_to(xpub, BS58Prefix::Xpub);
        } else if b[0] == 0x74u8 || b[0] == 0x76u8 || b[0] == 0x75u8 {
            return convert_to(xpub, BS58Prefix::Tpub);
        }
    }
    Err("Invalid xpub prefix: expected xpub, ypub, zpub, tpub, vpub, or upub".to_string())
}

/// Every index of an ASCII string's UTF-8 bytes is a character boundary.
proof fn lemma_ascii_char_boundary(c: Seq<char>, i: int)
    requires
        is_ascii_chars(c),
        0 <= i <= encode_utf8(c).len(),
    ensures
        is_char_boundary(encode_utf8(c), i),
{
    is_ascii_chars_encode_utf8(c);
    encode_utf8_valid_utf8(c);
    if i == encode_utf8(c).len() {
        is_char_boundary_start_end_of_seq(encode_utf8(c));
    } else {
        assert(c[i] as u8 == encode_utf8(c)[i]);
        assert('\0' <= c[i] <= '\u{7f}');
        is_char_boundary_iff_not_is_continuation_byte(encode_utf8(c), i);
    }
}

/// The text of the wallet descriptor: native SegWit receive addresses of the
/// key at BIP84 account 0, tagged with the key's fingerprint.
pub open spec fn descriptor_text(fp: Seq<char>, key: Seq<char>) -> Seq<char> {
    "wpkh(["@ + fp + "/84h/0h/0h]"@ + key + "/0/*)"@
}

/// What `get_bitcoincore_descriptor` yields: the descriptor followed by `#`
/// and its checksum, or an empty string when the key or the checksum fails.
pub open spec fn bitcoincore_descriptor_spec(xpub: Seq<char>) -> Seq<char> {
    match fingerprint_spec(xpub) {
        None => Seq::empty(),
        Some(fp) => match convert_xpub_spec(xpub) {
            None => Seq::empty(),
            Some(k) => {
                let d = descriptor_text(fp, k);
                match calc_checksum_spec(encode_utf8(d)) {
                    Ok(cs) => before_first(d, '#') + seq!['#'] + cs,
                    Err(_) => Seq::empty(),
                }
            },
        },
    }
}

/// The Bitcoin Core descriptor, with checksum, for an extended public key;
/// empty when the key is not valid.
pub fn get_bitcoincore_descriptor(xpub: &str) -> (r: String)
    ensures
        r@ == bitcoincore_descriptor_spec(xpub@),
        r@.len() > 0 ==> r@.len() >= 9 && r@[r@.len() - 9] == '#' && calc_checksum_spec(encode_utf8(r@))
            == Ok::<Seq<char>, Seq<char>>(r@.subrange(r@.len() - 8, r@.len() as int)),
{
    let fingerprint = match calculate_fingerprint(xpub) {
        Ok(f) => f,
        Err(_) => return String::new(),
    };
    proof {
        if encode_utf8(xpub@).len() >= 4 {
            lemma_ascii_char_boundary(xpub@, 4);
        }
    }
    let xpub_converted = match convert_xpub(xpub) {
        Ok(c) => c,
        Err(_) => return String::new(),
    };
    let mut descriptor = "wpkh([".to_string();
    push_all(&mut descriptor, fingerprint.as_str());
    push_all(&mut descriptor, "/84h/0h/0h]");
    push_all(&mut descriptor, xpub_converted.as_str());
    push_all(&mut descriptor, "/0/*)");
    assert(descriptor@ =~= descriptor_text(fingerprint@, xpub_converted@));
    match calc_checksum(descriptor.as_str()) {
        Ok(checksum) => {
            let chars = chars_of(descriptor.as_str());
            let cut = find_char(&chars, '#', 0);
            proof {
                lemma_find_from(chars@, '#', 0);
            }
            let mut out = string_from_range(&chars, 0, cut);
            push_char(&mut out, '#');
            push_all(&mut out, checksum.as_str());
            proof {
                lemma_descriptor_carries_checksum(fingerprint@, xpub_converted@, checksum@);
            }
            out
        },
        Err(_) => String::new(),
    }
}

/// The BIP32 path of the `index`-th receive address, `m/0/<index>`.
pub open spec fn derivation_path(index: int) -> Seq<char> {
    "m/0/"@ + signed_decimal(index)
}

/// What `new_address_from_xpub` yields: the P2WPKH address of the key derived
/// at `m/0/<index>` (after re-encoding the key as `xpub`), and that path.
pub open spec fn new_address_spec(zpub: Seq<char>, index: int, network: Network) -> Option<(Seq<char>, Seq<char>)> {
    match convert_to_spec(zpub, BS58Prefix::Xpub) {
        None => None,
        Some(x) => {
            let path = derivation_path(index);
            match derived_public_key(x, path) {
                None => None,
                Some(k) => match p2wpkh_address_of(k, network) {
                    None => None,
                    Some(a) => Some((a, path)),
                },
            }
        },
    }
}

/// A derived receive address is the P2WPKH address, on the network asked
/// for, of the key derived at `m/0/<index>` from the key re-encoded as
/// `xpub`: two networks give the addresses of one and the same key.
pub proof fn lemma_new_address_on_network(zpub: Seq<char>, index: int, n1: Network, n2: Network)
    ensures
        new_address_spec(zpub, index, n1) matches Some((a, p)) ==> p == "m/0/"@ + signed_decimal(index)
            && exists|x: Seq<char>, k: Seq<u8>|
                #![trigger derived_public_key(x, p), p2wpkh_address_of(k, n1)]
                convert_to_spec(zpub, BS58Prefix::Xpub) == Some(x) && derived_public_key(x, p) == Some(k)
                    && p2wpkh_address_of(k, n1) == Some(a),
        match (new_address_spec(zpub, index, n1), new_address_spec(zpub, index, n2)) {
            (Some((a1, p1)), Some((a2, p2))) => p1 == p2 && exists|k: Seq<u8>|
                #[trigger] p2wpkh_address_of(k, n1) == Some(a1) && p2wpkh_address_of(k, n2) == Some(a2),
            _ => true,
        },
{
    if let Some(x) = convert_to_spec(zpub, BS58Prefix::Xpub) {
        let path = derivation_path(index);
        if let Some(k) = derived_public_key(x, path) {
            assert(derived_public_key(x, path) == Some(k));
            assert(p2wpkh_address_of(k, n1) == p2wpkh_address_of(k, n1));
            assert(p2wpkh_address_of(k, n2) == p2wpkh_address_of(k, n2));
            if let Some(a) = p2wpkh_address_of(k, n1) {
                assert(new_address_spec(zpub, index, n1) == Some((a, path)));
                assert(path == "m/0/"@ + signed_decimal(index));
            }
        }
    }
}

/// Derives the receive address number `index` of an extended public key and
/// returns it with its derivation path.
pub fn new_address_from_xpub(zpub: &str, index: i64, network: Network) -> (r: Result<(String, String), String>)
    ensures
        match new_address_spec(zpub@, index as int, network) {
            Some((a, p)) => r matches Ok((ra, rp)) && ra@ == a && rp@ == p,
            None => r is Err,
        },
        convert_to_result(zpub@, BS58Prefix::Xpub) matches Err(m) ==> (r matches Err(e) && e@ == m),
        r matches Ok((a, p)) ==> p@ == "m/0/"@ + signed_decimal(index as int) && exists|x: Seq<char>, k: Seq<u8>|
            #![trigger derived_public_key(x, p@), p2wpkh_address_of(k, network)]
            convert_to_spec(zpub@, BS58Prefix::Xpub) == Some(x) && derived_public_key(x, p@) == Some(k)
                && p2wpkh_address_of(k, network) == Some(a@),
{
    let xpub = convert_to(zpub, BS58Prefix::Xpub)?;
    let mut path = "m/0/".to_string();
    let digits = i64_to_decimal(index);
    push_all(&mut path, digits.as_str());
    let key = derive_public_key(xpub.as_str(), path.as_str())?;
    let address = p2wpkh_address(key.as_slice(), network)?;
    Ok((address, path))
}


// ---------------------------------------------------------------------------
// Laws of the checksum
// ---------------------------------------------------------------------------

/// The checksum state stays within 40 bits: one reduction step of a value
/// below 2^40 with a symbol below 32 gives a value below 2^40.
pub proof fn lemma_poly_mod_bounded(c: u64, val: u64)
    requires
        c < 0x100_0000_0000u64,
        val < 32,
    ensures
        poly_mod_spec(c, val) < 0x100_0000_0000u64,
{
    assert(c < 0x100_0000_0000u64 && val < 32 ==> ({
        let c0 = c >> 35u64;
        let c1 = ((c & 0x7ffffffffu64) << 5u64) ^ val;
        let c2 = if c0 & 1 > 0 { c1 ^ 0xf5dee51989u64 } else { c1 };
        let c3 = if c0 & 2 > 0 { c2 ^ 0xa9fdca3312u64 } else { c2 };
        let c4 = if c0 & 4 > 0 { c3 ^ 0x1bab10e32du64 } else { c3 };
        let c5 = if c0 & 8 > 0 { c4 ^ 0x3706b1677au64 } else { c4 };
        (if c0 & 16 > 0 { c5 ^ 0x644d626ffdu64 } else { c5 }) < 0x100_0000_0000u64
    })) by (bit_vector);
}

/// The checksum covers only what precedes the first `#`: a descriptor
/// without `#` has the same checksum as that descriptor followed by `#` and
/// anything at all (an existing checksum, for instance).
pub proof fn lemma_checksum_ignores_suffix(d: Seq<u8>, tail: Seq<u8>)
    requires
        !occurs(d, 35u8),
    ensures
        calc_checksum_spec(d + seq![35u8] + tail) == calc_checksum_spec(d),
{
    let full = d + seq![35u8] + tail;
    lemma_find_from(d, 35u8, 0);
    lemma_find_from(full, 35u8, 0);
    let k = find_from(full, 35u8, 0);
    if k < d.len() {
        assert(full[k] == d[k]);
    }
    assert(full[d.len() as int] == 35u8);
    assert(find_from(d, 35u8, 0) == d.len());
    assert(k == d.len());
    assert(descriptor_body(full) =~= d);
    assert(descriptor_body(d) =~= d);
}


/// The checksum state after feeding a run of symbol values, one `poly_mod`
/// step each.
pub open spec fn poly_mod_feed(c: u64, syms: Seq<u64>) -> u64
    decreases syms.len(),
{
    if syms.len() == 0 {
        c
    } else {
        poly_mod_spec(poly_mod_feed(c, syms.drop_last()), syms.last())
    }
}

/// The checksum state once all of a descriptor's symbols are in (a pending
/// group of high bits flushed), before the eight zero symbols.
pub open spec fn checksum_flushed(st: (u64, u64, u64)) -> u64 {
    if st.2 > 0 {
        poly_mod_spec(st.0, st.1)
    } else {
        st.0
    }
}

/// The values (positions in the checksum alphabet) of the eight checksum
/// symbols of a final checksum value: `checksum_symbols` writes character
/// `checksum_charset()[checksum_values(c)[j]]` in place `j`.
pub open spec fn checksum_values(c: u64) -> Seq<u64> {
    Seq::new(8, |j: int| (c >> ((5 * (7 - j)) as u64)) & 31u64)
}

proof fn lemma_scan_bounds(body: Seq<u8>)
    ensures
        checksum_scan(body) matches Ok(st) ==> {
            &&& st.0 < 0x100_0000_0000u64
            &&& st.2 < 3
            &&& st.2 == 0 ==> st.1 == 0
            &&& st.2 == 1 ==> st.1 < 3
            &&& st.2 == 2 ==> st.1 < 9
        },
    decreases body.len(),
{
    if body.len() > 0 {
        lemma_scan_bounds(body.drop_last());
        if let Ok(st) = checksum_scan(body.drop_last()) {
            let pos = charset_pos(body.last());
            if pos < 95 {
                lemma_find_from(input_charset(), body.last(), 0);
                lemma_small_bits(pos as u64);
                lemma_poly_mod_bounded(st.0, (pos as u64) & 31u64);
                let c = poly_mod_spec(st.0, (pos as u64) & 31u64);
                let cls = (st.1 * 3 + ((pos as u64) >> 5u64)) as u64;
                if st.2 + 1 == 3 {
                    lemma_poly_mod_bounded(c, cls);
                }
            }
        }
    }
}

/// One step of feeding a symbol into a state written as `z ^ t`, where `t`
/// holds the symbols fed so far: the reduction acts on `z` alone and `t`
/// shifts up by one symbol.
proof fn lemma_feed_step(z: u64, t: u64, v: u64)
    by (bit_vector)
    requires
        z < 0x100_0000_0000u64,
        t < 0x8_0000_0000u64,
        v < 32,
    ensures
        poly_mod_spec(z ^ t, v) == poly_mod_spec(z, 0u64) ^ ((t << 5u64) ^ v),
{
}

/// The eight five-bit groups of a value below 2^40, shifted back into place
/// one at a time, give the value again; every partial result stays below 2^35.
proof fn lemma_symbols_rebuild(f: u64)
    by (bit_vector)
    requires
        f < 0x100_0000_0000u64,
    ensures
        ((f >> 35u64) & 31u64) < 0x8_0000_0000u64,
        ((((f >> 35u64) & 31u64) << 5u64) ^ ((f >> 30u64) & 31u64)) < 0x8_0000_0000u64,
        ((((((f >> 35u64) & 31u64) << 5u64) ^ ((f >> 30u64) & 31u64)) << 5u64) ^ ((f >> 25u64) & 31u64)) < 0x8_0000_0000u64,
        ((((((((f >> 35u64) & 31u64) << 5u64) ^ ((f >> 30u64) & 31u64)) << 5u64) ^ ((f >> 25u64) & 31u64)) << 5u64) ^ ((f >> 20u64) & 31u64)) < 0x8_0000_0000u64,
        ((((((((((f >> 35u64) & 31u64) << 5u64) ^ ((f >> 30u64) & 31u64)) << 5u64) ^ ((f >> 25u64) & 31u64)) << 5u64) ^ ((f >> 20u64) & 31u64)) << 5u64) ^ ((f >> 15u64) & 31u64)) < 0x8_0000_0000u64,
        ((((((((((((f >> 35u64) & 31u64) << 5u64) ^ ((f >> 30u64) & 31u64)) << 5u64) ^ ((f >> 25u64) & 31u64)) << 5u64) ^ ((f >> 20u64) & 31u64)) << 5u64) ^ ((f >> 15u64) & 31u64)) << 5u64) ^ ((f >> 10u64) & 31u64)) < 0x8_0000_0000u64,
        ((((((((((((((f >> 35u64) & 31u64) << 5u64) ^ ((f >> 30u64) & 31u64)) << 5u64) ^ ((f >> 25u64) & 31u64)) << 5u64) ^ ((f >> 20u64) & 31u64)) << 5u64) ^ ((f >> 15u64) & 31u64)) << 5u64) ^ ((f >> 10u64) & 31u64)) << 5u64) ^ ((f >> 5u64) & 31u64)) < 0x8_0000_0000u64,
        ((((((((((((((((f >> 35u64) & 31u64) << 5u64) ^ ((f >> 30u64) & 31u64)) << 5u64) ^ ((f >> 25u64) & 31u64)) << 5u64) ^ ((f >> 20u64) & 31u64)) << 5u64) ^ ((f >> 15u64) & 31u64)) << 5u64) ^ ((f >> 10u64) & 31u64)) << 5u64) ^ ((f >> 5u64) & 31u64)) << 5u64) ^ (f & 31u64)) == f,
{
}

proof fn lemma_first_feed(c: u64, v: u64)
    by (bit_vector)
    requires
        c < 0x100_0000_0000u64,
        v < 32,
    ensures
        poly_mod_spec(c, v) == poly_mod_spec(c, 0u64) ^ v,
{
}

proof fn lemma_xor_cancel(z: u64)
    by (bit_vector)
    ensures
        z ^ (z ^ 1u64) == 1u64,
{
}

/// Feeding the eight checksum symbols instead of eight zeros gives 1.
proof fn lemma_final_verifies(c: u64)
    requires
        c < 0x100_0000_0000u64,
    ensures
        poly_mod_feed(c, checksum_values(poly_mod_zeros(c, 8) ^ 1u64)) == 1,
{
    let z0 = c;
    let z1 = poly_mod_spec(z0, 0);
    let z2 = poly_mod_spec(z1, 0);
    let z3 = poly_mod_spec(z2, 0);
    let z4 = poly_mod_spec(z3, 0);
    let z5 = poly_mod_spec(z4, 0);
    let z6 = poly_mod_spec(z5, 0);
    let z7 = poly_mod_spec(z6, 0);
    let z8 = poly_mod_spec(z7, 0);
    lemma_poly_mod_bounded(z0, 0);
    lemma_poly_mod_bounded(z1, 0);
    lemma_poly_mod_bounded(z2, 0);
    lemma_poly_mod_bounded(z3, 0);
    lemma_poly_mod_bounded(z4, 0);
    lemma_poly_mod_bounded(z5, 0);
    lemma_poly_mod_bounded(z6, 0);
    lemma_poly_mod_bounded(z7, 0);
    assert(poly_mod_zeros(c, 8) == z8) by {
        reveal_with_fuel(poly_mod_zeros, 9);
    }
    let f = z8 ^ 1u64;
    assert(f < 0x100_0000_0000u64) by (bit_vector)
        requires
            z8 < 0x100_0000_0000u64,
            f == z8 ^ 1u64,
    ;
    let vals = checksum_values(f);
    let v0 = (f >> 35u64) & 31u64;
    let v1 = (f >> 30u64) & 31u64;
    let v2 = (f >> 25u64) & 31u64;
    let v3 = (f >> 20u64) & 31u64;
    let v4 = (f >> 15u64) & 31u64;
    let v5 = (f >> 10u64) & 31u64;
    let v6 = (f >> 5u64) & 31u64;
    let v7 = (f >> 0u64) & 31u64;
    assert(vals[0] == v0 && vals[1] == v1 && vals[2] == v2 && vals[3] == v3);
    assert(vals[4] == v4 && vals[5] == v5 && vals[6] == v6 && vals[7] == v7);
    assert(v7 == f & 31u64) by (bit_vector)
        requires
            v7 == (f >> 0u64) & 31u64,
    ;
    assert(v0 < 32 && v1 < 32 && v2 < 32 && v3 < 32 && v4 < 32 && v5 < 32 && v6 < 32 && v7 < 32)
        by (bit_vector)
        requires
            v0 == (f >> 35u64) & 31u64,
            v1 == (f >> 30u64) & 31u64,
            v2 == (f >> 25u64) & 31u64,
            v3 == (f >> 20u64) & 31u64,
            v4 == (f >> 15u64) & 31u64,
            v5 == (f >> 10u64) & 31u64,
            v6 == (f >> 5u64) & 31u64,
            v7 == (f >> 0u64) & 31u64,
    ;
    lemma_symbols_rebuild(f);
    let t1 = v0;
    let t2 = (t1 << 5u64) ^ v1;
    let t3 = (t2 << 5u64) ^ v2;
    let t4 = (t3 << 5u64) ^ v3;
    let t5 = (t4 << 5u64) ^ v4;
    let t6 = (t5 << 5u64) ^ v5;
    let t7 = (t6 << 5u64) ^ v6;
    let t8 = (t7 << 5u64) ^ v7;
    assert(vals.len() == 8);
    assert(vals.take(0) =~= Seq::<u64>::empty());
    assert(vals.take(1).drop_last() =~= vals.take(0));
    assert(vals.take(2).drop_last() =~= vals.take(1));
    assert(vals.take(3).drop_last() =~= vals.take(2));
    assert(vals.take(4).drop_last() =~= vals.take(3));
    assert(vals.take(5).drop_last() =~= vals.take(4));
    assert(vals.take(6).drop_last() =~= vals.take(5));
    assert(vals.take(7).drop_last() =~= vals.take(6));
    assert(vals.take(8).drop_last() =~= vals.take(7));
    assert(vals.take(8) =~= vals);
    lemma_first_feed(z0, v0);
    assert(poly_mod_feed(c, vals.take(0)) == c);
    assert(vals.take(1).last() == v0);
    assert(poly_mod_feed(c, vals.take(1)) == z1 ^ t1);
    lemma_feed_step(z1, t1, v1);
    assert(poly_mod_feed(c, vals.take(2)) == z2 ^ t2);
    lemma_feed_step(z2, t2, v2);
    assert(poly_mod_feed(c, vals.take(3)) == z3 ^ t3);
    lemma_feed_step(z3, t3, v3);
    assert(poly_mod_feed(c, vals.take(4)) == z4 ^ t4);
    lemma_feed_step(z4, t4, v4);
    assert(poly_mod_feed(c, vals.take(5)) == z5 ^ t5);
    lemma_feed_step(z5, t5, v5);
    assert(poly_mod_feed(c, vals.take(6)) == z6 ^ t6);
    lemma_feed_step(z6, t6, v6);
    assert(poly_mod_feed(c, vals.take(7)) == z7 ^ t7);
    lemma_feed_step(z7, t7, v7);
    assert(poly_mod_feed(c, vals.take(8)) == z8 ^ t8);
    assert(t8 == f);
    lemma_xor_cancel(z8);
}

/// A descriptor followed by its checksum verifies, as Bitcoin Core checks
/// it: feeding the checksum's eight symbols after the descriptor's own
/// symbols leaves the checksum state at 1.
pub proof fn lemma_checksum_verifies(d: Seq<u8>)
    requires
        checksum_scan(descriptor_body(d)) is Ok,
    ensures
        match checksum_scan(descriptor_body(d)) {
            Ok(st) => poly_mod_feed(checksum_flushed(st), checksum_values(checksum_final(st))) == 1,
            Err(_) => true,
        },
{
    lemma_scan_bounds(descriptor_body(d));
    if let Ok(st) = checksum_scan(descriptor_body(d)) {
        if st.2 > 0 {
            lemma_poly_mod_bounded(st.0, st.1);
        }
        lemma_final_verifies(checksum_flushed(st));
    }
}

/// Text made of lowercase hex digits.
pub open spec fn is_lower_hex_text(s: Seq<char>) -> bool {
    forall|k: int| 0 <= k < s.len() ==> ('0' <= #[trigger] s[k] && s[k] <= '9') || ('a' <= s[k] && s[k] <= 'f')
}

proof fn lemma_hex_lower_text(b: Seq<u8>)
    ensures
        is_lower_hex_text(hex_lower(b)),
    decreases b.len(),
{
    if b.len() > 0 {
        lemma_hex_lower_text(b.drop_last());
        let h = hex_lower(b.drop_last());
        let d1 = (b.last() / 16) as nat;
        let d2 = (b.last() % 16) as nat;
        assert(hex_lower(b) == h + seq![crate::text::hex_digit_lower(d1), crate::text::hex_digit_lower(d2)]);
        assert forall|k: int| 0 <= k < hex_lower(b).len() implies ('0' <= #[trigger] hex_lower(b)[k] && hex_lower(b)[k] <= '9') || ('a' <= hex_lower(b)[k] && hex_lower(b)[k] <= 'f') by {
            if k >= h.len() {
                let d = if k == h.len() { d1 } else { d2 };
                assert(hex_lower(b)[k] == crate::text::hex_digit_lower(d));
            } else {
                assert(hex_lower(b)[k] == h[k]);
            }
        }
    }
}

/// ASCII text without `#` encodes to bytes without `#`, byte for character.
proof fn lemma_ascii_text_bytes(c: Seq<char>)
    requires
        is_ascii_chars(c),
    ensures
        encode_utf8(c).len() == c.len(),
        forall|k: int| 0 <= k < c.len() ==> #[trigger] encode_utf8(c)[k] == c[k] as u8,
{
    is_ascii_chars_encode_utf8(c);
}

/// The descriptor that `get_bitcoincore_descriptor` returns carries its own
/// checksum: checksumming the whole text (which ignores the part from `#`
/// on) gives back its last eight characters.
proof fn lemma_descriptor_carries_checksum(f: Seq<char>, key: Seq<char>, cs: Seq<char>)
    requires
        is_lower_hex_text(f),
        is_base58_text(key),
        cs.len() == 8,
        forall|k: int| 0 <= k < 8 ==> exists|j: int| 0 <= j < 32 && #[trigger] cs[k] == checksum_charset()[j] as char,
        calc_checksum_spec(encode_utf8(descriptor_text(f, key))) == Ok::<Seq<char>, Seq<char>>(cs),
    ensures
        ({
            let d = descriptor_text(f, key);
            let r = before_first(d, '#') + seq!['#'] + cs;
            &&& r.len() >= 9
            &&& r[r.len() - 9] == '#'
            &&& calc_checksum_spec(encode_utf8(r)) == Ok::<Seq<char>, Seq<char>>(r.subrange(r.len() - 8, r.len() as int))
        }),
{
    let d = descriptor_text(f, key);
    reveal_strlit("wpkh([");
    reveal_strlit("/84h/0h/0h]");
    reveal_strlit("/0/*)");
    assert forall|k: int| 0 <= k < d.len() implies #[trigger] d[k] != '#' && '\0' <= d[k] <= '\u{7f}' by {
        let a = "wpkh(["@;
        let b = "/84h/0h/0h]"@;
        let e = "/0/*)"@;
        if k < a.len() {
            assert(d[k] == a[k]);
        } else if k < a.len() + f.len() {
            assert(d[k] == f[k - a.len()]);
        } else if k < a.len() + f.len() + b.len() {
            assert(d[k] == b[k - a.len() - f.len()]);
        } else if k < a.len() + f.len() + b.len() + key.len() {
            assert(d[k] == key[k - a.len() - f.len() - b.len()]);
        } else {
            assert(d[k] == e[k - a.len() - f.len() - b.len() - key.len()]);
        }
    }
    lemma_find_from(d, '#', 0);
    assert(find_from(d, '#', 0) == d.len());
    assert(before_first(d, '#') =~= d);
    assert forall|k: int| 0 <= k < 8 implies #[trigger] cs[k] != '#' && '\0' <= cs[k] <= '\u{7f}' by {
        let j = choose|j: int| 0 <= j < 32 && #[trigger] cs[k] == checksum_charset()[j] as char;
        assert(checksum_charset()[j] != 35u8 && checksum_charset()[j] < 128u8);
    }
    let r = d + seq!['#'] + cs;
    assert(is_ascii_chars(d));
    assert(is_ascii_chars(cs));
    assert(is_ascii_chars(r)) by {
        assert forall|k: int| 0 <= k < r.len() implies '\0' <= #[trigger] r[k] <= '\u{7f}' by {
            if k < d.len() {
                assert(r[k] == d[k]);
            } else if k > d.len() {
                assert(r[k] == cs[k - d.len() - 1]);
            }
        }
    }
    lemma_ascii_text_bytes(d);
    lemma_ascii_text_bytes(cs);
    lemma_ascii_text_bytes(r);
    let bd = encode_utf8(d);
    let bc = encode_utf8(cs);
    assert(encode_utf8(r) =~= bd + seq![35u8] + bc) by {
        assert forall|k: int| 0 <= k < r.len() implies encode_utf8(r)[k] == (bd + seq![35u8] + bc)[k] by {
            if k < d.len() {
                assert(r[k] == d[k]);
            } else if k == d.len() {
                assert(r[k] == '#');
            } else {
                assert(r[k] == cs[k - d.len() - 1]);
            }
        }
    }
    assert(!occurs(bd, 35u8)) by {
        lemma_find_from(bd, 35u8, 0);
        if find_from(bd, 35u8, 0) < bd.len() {
            let k = find_from(bd, 35u8, 0);
            assert(bd[k] == d[k] as u8);
        }
    }
    lemma_checksum_ignores_suffix(bd, bc);
    assert(r.subrange(r.len() - 8, r.len() as int) =~= cs);
}

} // verus!

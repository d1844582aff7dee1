//! Frame encryption: samples are serialised little-endian, zero-padded to the
//! cipher block, and encrypted with AES-256 in CBC mode under a fixed IV.

use vstd::prelude::*;
use cbc::cipher::block_padding::NoPadding;
use cbc::cipher::generic_array::GenericArray;
use cbc::cipher::{BlockDecryptMut, BlockEncryptMut, KeyIvInit};

verus! {

/// Cipher block size in bytes.
pub const BLOCK_LEN: usize = 16;

/// Key size in bytes.
pub const KEY_LEN: usize = 32;

/// Low byte of a sample.
pub open spec fn low_byte(x: i16) -> u8 {
    ((x as u16) & 0xff) as u8
}

/// High byte of a sample.
pub open spec fn high_byte(x: i16) -> u8 {
    ((x as u16) >> 8u16) as u8
}

/// The sample whose little-endian bytes are `lo`, `hi`.
pub open spec fn sample_of(lo: u8, hi: u8) -> i16 {
    (((hi as u16) << 8u16) | (lo as u16)) as i16
}

/// Little-endian serialisation, two bytes per sample.
pub open spec fn le_bytes(s: Seq<i16>) -> Seq<u8> {
    Seq::new(
        2 * s.len(),
        |i: int|
            if i % 2 == 0 {
                low_byte(s[i / 2])
            } else {
                high_byte(s[i / 2])
            },
    )
}

/// The samples read back from little-endian bytes; an odd last byte is ignored.
pub open spec fn le_samples(b: Seq<u8>) -> Seq<i16> {
    Seq::new(b.len() / 2, |k: int| sample_of(b[2 * k], b[2 * k + 1]))
}

/// `n` rounded up to a whole number of cipher blocks.
pub open spec fn padded_len(n: nat) -> nat {
    ((n + 15) / 16 * 16) as nat
}

/// The plaintext of a frame: its bytes, then zeros up to the block boundary.
pub open spec fn framed(s: Seq<i16>) -> Seq<u8> {
    le_bytes(s) + Seq::new((padded_len(2 * s.len()) - 2 * s.len()) as nat, |i: int| 0u8)
}

proof fn lemma_sample_bytes(x: i16)
    ensures
        sample_of(low_byte(x), high_byte(x)) == x,
{
    assert(((((((x as u16) >> 8u16) as u8) as u16) << 8u16) | ((((x as u16) & 0xff) as u8)
        as u16)) as i16 == x) by (bit_vector);
}

proof fn lemma_zero_bytes()
    ensures
        sample_of(0u8, 0u8) == 0i16,
{
    assert(((((0u8 as u16) << 8u16) | (0u8 as u16)) as i16) == 0i16) by (bit_vector);
}

/// A frame read back from its padded plaintext gives the frame itself,
/// followed by silent samples that fill the padding.
pub proof fn lemma_framed_round_trip(s: Seq<i16>)
    ensures
        le_samples(framed(s)).len() == padded_len(2 * s.len()) / 2,
        le_samples(framed(s)).subrange(0, s.len() as int) == s,
        forall|k: int|
            s.len() <= k < le_samples(framed(s)).len() ==> #[trigger] le_samples(framed(s))[k]
                == 0i16,
{
    let f = framed(s);
    let n = 2 * s.len();
    assert(padded_len(n) >= n);
    assert(padded_len(n) % 2 == 0);
    assert(f.len() == padded_len(n));
    assert forall|k: int| 0 <= k < s.len() implies #[trigger] le_samples(f)[k] == s[k] by {
        assert(f[2 * k] == low_byte(s[k]));
        assert(f[2 * k + 1] == high_byte(s[k]));
        lemma_sample_bytes(s[k]);
    }
    assert(le_samples(f).subrange(0, s.len() as int) =~= s);
    assert forall|k: int| s.len() <= k < le_samples(f).len() implies #[trigger] le_samples(f)[k]
        == 0i16 by {
        assert(f[2 * k] == 0u8);
        assert(f[2 * k + 1] == 0u8);
        lemma_zero_bytes();
    }
}

/// Serialises a frame and pads it with zero bytes to the block boundary.
pub fn frame_plaintext(data: &[i16]) -> (r: Vec<u8>)
    requires
        2 * data@.len() + BLOCK_LEN <= usize::MAX,
    ensures
        r@ == framed(data@),
        r@.len() % 16 == 0,
{
    let n = data.len();
    let mut out: Vec<u8> = Vec::with_capacity(2 * n + BLOCK_LEN);
    let mut i: usize = 0;
    while i < n
        invariant
            n == data@.len(),
            i <= n,
            out@ == le_bytes(data@.subrange(0, i as int)),
        decreases n - i,
    {
        let x = data[i];
        let u = x as u16;
        let lo = (u & 0xff) as u8;
        let hi = (u >> 8u16) as u8;
        out.push(lo);
        out.push(hi);
        proof {
            assert(lo == low_byte(x));
            assert(hi == high_byte(x));
        }
        i = i + 1;
        assert(out@ =~= le_bytes(data@.subrange(0, i as int)));
    }
    assert(data@.subrange(0, n as int) =~= data@);
    let bytes = out.len();
    while out.len() % BLOCK_LEN != 0
        invariant
            bytes == 2 * n,
            2 * n + BLOCK_LEN <= usize::MAX,
            bytes <= out@.len() <= padded_len(bytes as nat),
            out@.subrange(0, bytes as int) == le_bytes(data@),
            forall|k: int| bytes <= k < out@.len() ==> #[trigger] out@[k] == 0u8,
        decreases padded_len(bytes as nat) - out@.len(),
    {
        let ghost before = out@;
        out.push(0u8);
        assert(out@.subrange(0, bytes as int) =~= before.subrange(0, bytes as int));
    }
    assert(out@ =~= framed(data@));
    out
}

/// Errors of key setup and of packet decryption.
#[derive(Debug, Clone, Copy, PartialEq, Eq, Structural)]
pub enum CipherError {
    /// The key is not exactly 32 bytes long.
    InvalidKeyLength,
    /// The key text is not an even number of hexadecimal digits.
    InvalidKeyHex,
    /// The packet is not a whole number of cipher blocks.
    MisalignedPacket,
}

#[verifier::external_type_specification]
#[verifier::external_body]
pub struct ExFromHexError(hex::FromHexError);

/// AES-256 in CBC mode over block-aligned plaintext, without padding.
pub uninterp spec fn aes256_cbc_encrypted(key: Seq<u8>, iv: Seq<u8>, plain: Seq<u8>) -> Seq<u8>;

/// AES-256 CBC decryption of block-aligned ciphertext, without unpadding.
pub uninterp spec fn aes256_cbc_decrypted(key: Seq<u8>, iv: Seq<u8>, data: Seq<u8>) -> Seq<u8>;

/// Relies on `cbc::Encryptor<aes::Aes256>::encrypt_padded_vec_mut::<NoPadding>`:
/// block-aligned input is encrypted block by block in CBC mode into a
/// ciphertext of the same length.
#[verifier::external_body]
fn aes256_cbc_encrypt(key: &Vec<u8>, iv: &Vec<u8>, plain: &Vec<u8>) -> (r: Vec<u8>)
    requires
        key@.len() == KEY_LEN,
        iv@.len() == BLOCK_LEN,
        plain@.len() % 16 == 0,
        plain@.len() + BLOCK_LEN <= usize::MAX,
    ensures
        r@ == aes256_cbc_encrypted(key@, iv@, plain@),
        r@.len() == plain@.len(),
{
    let enc = cbc::Encryptor::<aes::Aes256>::new(
        GenericArray::from_slice(key.as_slice()),
        GenericArray::from_slice(iv.as_slice()),
    );
    enc.encrypt_padded_vec_mut::<NoPadding>(plain.as_slice())
}

/// Relies on `cbc::Decryptor<aes::Aes256>::decrypt_padded_vec_mut::<NoPadding>`:
/// it fails exactly on input that is not block-aligned, otherwise returns a
/// plaintext of the same length, and CBC decryption under a key and IV
/// inverts CBC encryption under the same key and IV.
#[verifier::external_body]
fn aes256_cbc_decrypt(key: &Vec<u8>, iv: &Vec<u8>, data: &[u8]) -> (r: Option<Vec<u8>>)
    requires
        key@.len() == KEY_LEN,
        iv@.len() == BLOCK_LEN,
    ensures
        r.is_some() == (data@.len() % 16 == 0),
        r matches Some(p) ==> p@ == aes256_cbc_decrypted(key@, iv@, data@),
        r matches Some(p) ==> p@.len() == data@.len(),
        r matches Some(v) ==> forall|p: Seq<u8>|
            p.len() % 16 == 0 && data@ == #[trigger] aes256_cbc_encrypted(key@, iv@, p) ==> v@
                == p,
        r is None ==> forall|p: Seq<u8>|
            p.len() % 16 == 0 ==> data@ != #[trigger] aes256_cbc_encrypted(key@, iv@, p),
{
    let dec = cbc::Decryptor::<aes::Aes256>::new(
        GenericArray::from_slice(key.as_slice()),
        GenericArray::from_slice(iv.as_slice()),
    );
    dec.decrypt_padded_vec_mut::<NoPadding>(data).ok()
}

/// Whether `c` is an ASCII hexadecimal digit, in either case.
pub open spec fn is_hex_digit(c: char) -> bool {
    ('0' as u32 <= c as u32 <= '9' as u32) || ('a' as u32 <= c as u32 <= 'f' as u32) || (
    'A' as u32 <= c as u32 <= 'F' as u32)
}

/// The value of a hexadecimal digit.
pub open spec fn hex_value(c: char) -> int {
    if '0' as u32 <= c as u32 <= '9' as u32 {
        c as u32 - '0' as u32
    } else if 'a' as u32 <= c as u32 <= 'f' as u32 {
        c as u32 - 'a' as u32 + 10
    } else {
        c as u32 - 'A' as u32 + 10
    }
}

/// Whether `s` is an even number of hexadecimal digits.
pub open spec fn is_hex_text(s: Seq<char>) -> bool {
    &&& s.len() % 2 == 0
    &&& forall|i: int| 0 <= i < s.len() ==> #[trigger] is_hex_digit(s[i])
}

/// The bytes that a hexadecimal text spells, high digit first.
pub open spec fn hex_decoded(s: Seq<char>) -> Seq<u8> {
    Seq::new(s.len() / 2, |k: int| (16 * hex_value(s[2 * k]) + hex_value(s[2 * k + 1])) as u8)
}

/// Relies on `hex::decode`: it succeeds exactly on an even number of
/// hexadecimal digits of either case, and turns each pair into one byte.
#[verifier::external_body]
fn decode_hex(text: &str) -> (r: Result<Vec<u8>, hex::FromHexError>)
    ensures
        r is Ok <==> is_hex_text(text@),
        r matches Ok(v) ==> v@ == hex_decoded(text@),
{
    hex::decode(text)
}

/// The all-zero initialisation vector used for every frame.
pub open spec fn zero_iv() -> Seq<u8> {
    Seq::new(16, |i: int| 0u8)
}

/// The packet that carries frame `s` under `key`.
pub open spec fn encrypted_frame(key: Seq<u8>, s: Seq<i16>) -> Seq<u8> {
    aes256_cbc_encrypted(key, zero_iv(), framed(s))
}

/// The samples that packet `c` decrypts to under `key`.
pub open spec fn decrypted_frame(key: Seq<u8>, c: Seq<u8>) -> Seq<i16> {
    le_samples(aes256_cbc_decrypted(key, zero_iv(), c))
}

/// Encrypts outgoing frames and decrypts incoming packets under one key.
pub struct AudioEncryptor {
    key: Vec<u8>,
    iv: Vec<u8>,
}

impl AudioEncryptor {
    #[verifier::type_invariant]
    spec fn well_formed(&self) -> bool {
        &&& self.key@.len() == KEY_LEN
        &&& self.iv@ == zero_iv()
    }

    /// The 32-byte key.
    pub closed spec fn key_bytes(&self) -> Seq<u8> {
        self.key@
    }

    /// Builds an encryptor from a raw key, which must be 32 bytes long.
    pub fn new(key: &[u8]) -> (r: Result<AudioEncryptor, CipherError>)
        ensures
            match r {
                Ok(e) => key@.len() == KEY_LEN && e.key_bytes() == key@,
                Err(err) => key@.len() != KEY_LEN && err == CipherError::InvalidKeyLength,
            },
    {
        if key.len() != KEY_LEN {
            return Err(CipherError::InvalidKeyLength);
        }
        let mut k: Vec<u8> = Vec::with_capacity(KEY_LEN);
        let mut i: usize = 0;
        while i < KEY_LEN
            invariant
                key@.len() == KEY_LEN,
                i <= KEY_LEN,
                k@ == key@.subrange(0, i as int),
            decreases KEY_LEN - i,
        {
            k.push(key[i]);
            i = i + 1;
            assert(k@ =~= key@.subrange(0, i as int));
        }
        assert(k@ =~= key@);
        let mut iv: Vec<u8> = Vec::with_capacity(BLOCK_LEN);
        let mut j: usize = 0;
        while j < BLOCK_LEN
            invariant
                j <= BLOCK_LEN,
                iv@ == Seq::new(j as nat, |x: int| 0u8),
            decreases BLOCK_LEN - j,
        {
            iv.push(0u8);
            j = j + 1;
            assert(iv@ =~= Seq::new(j as nat, |x: int| 0u8));
        }
        Ok(AudioEncryptor { key: k, iv })
    }

    /// Builds an encryptor from a key written as hexadecimal text.
    pub fn from_hex_key(text: &str) -> (r: Result<AudioEncryptor, CipherError>)
        ensures
            match r {
                Ok(e) => is_hex_text(text@) && text@.len() == 2 * KEY_LEN && e.key_bytes()
                    == hex_decoded(text@),
                Err(err) => (!is_hex_text(text@) && err == CipherError::InvalidKeyHex) || (
                is_hex_text(text@) && text@.len() != 2 * KEY_LEN && err
                    == CipherError::InvalidKeyLength),
            },
    {
        match decode_hex(text) {
            Ok(bytes) => AudioEncryptor::new(bytes.as_slice()),
            Err(_) => Err(CipherError::InvalidKeyHex),
        }
    }

    /// Encrypts a frame: its samples little-endian, zero-padded to the block
    /// boundary, under this key and the zero IV.
    pub fn encrypt(&self, data: &[i16]) -> (r: Result<Vec<u8>, CipherError>)
        requires
            2 * data@.len() + 2 * BLOCK_LEN <= usize::MAX,
        ensures
            r matches Ok(v) && v@ == encrypted_frame(self.key_bytes(), data@),
            r matches Ok(v) && v@.len() == padded_len(2 * data@.len()),
            r matches Ok(v) && v@.len() % 16 == 0,
    {
        proof {
            use_type_invariant(self);
        }
        let plain = frame_plaintext(data);
        Ok(aes256_cbc_encrypt(&self.key, &self.iv, &plain))
    }

    /// Decrypts a packet into samples; it must be a whole number of blocks.
    /// A packet that carries some frame gives back that frame followed by
    /// the silent samples of its padding.
    pub fn decrypt(&self, packet: &[u8]) -> (r: Result<Vec<i16>, CipherError>)
        ensures
            match r {
                Ok(v) => packet@.len() % 16 == 0 && v@ == decrypted_frame(
                    self.key_bytes(),
                    packet@,
                ),
                Err(err) => packet@.len() % 16 != 0 && err == CipherError::MisalignedPacket,
            },
            forall|s: Seq<i16>|
                packet@ == #[trigger] encrypted_frame(self.key_bytes(), s) ==> (r matches Ok(v)
                    && v@ == le_samples(framed(s))),
    {
        proof {
            use_type_invariant(self);
        }
        let plain = match aes256_cbc_decrypt(&self.key, &self.iv, packet) {
            Some(p) => p,
            None => {
                return Err(CipherError::MisalignedPacket);
            },
        };
        let len = plain.len();
        let n = len / 2;
        let mut out: Vec<i16> = Vec::with_capacity(n);
        let mut k: usize = 0;
        while k < n
            invariant
                len == plain@.len(),
                n == plain@.len() / 2,
                k <= n,
                out@.len() == k,
                forall|m: int| 0 <= m < k ==> #[trigger] out@[m] == le_samples(plain@)[m],
            decreases n - k,
        {
            let lo = plain[2 * k];
            let hi = plain[2 * k + 1];
            let x: i16 = #[verifier::truncate] ((((hi as u16) << 8u16) | (lo as u16)) as i16);
            out.push(x);
            k = k + 1;
        }
        assert(out@ =~= le_samples(plain@));
        proof {
            assert forall|s: Seq<i16>|
                packet@ == #[trigger] encrypted_frame(self.key_bytes(), s) implies (
            out@ == le_samples(framed(s))) by {
                lemma_framed_len(s);
            }
        }
        Ok(out)
    }
}

proof fn lemma_framed_len(s: Seq<i16>)
    ensures
        framed(s).len() % 16 == 0,
{
    let n = 2 * s.len();
    assert(padded_len(n) >= n);
}

} // verus!

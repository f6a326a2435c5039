//! Cryptographic primitives of the data plane.
//!
//! The algorithms are what the wire protocol asks for. Neither XOR nor AES-ECB
//! is authenticated encryption.

use crate::bytes::push_all;
use crate::error::Error;
use crate::fragment::{declared_length, law_trim_removes_padding, trimmed};
use crate::protocol::EncryptionMethod;
use crate::text::chars_of;
use aes::Aes128;
use cipher::{Array, BlockCipherDecrypt, BlockCipherEncrypt, KeyInit};
use md5::Digest;
use vstd::prelude::*;
use vstd::slice::slice_to_vec;

verus! {

pub const KEY_LEN: usize = 16;

pub const AES_BLOCK_LEN: usize = 16;

pub const XOR_KEY_LEN: usize = 8;

/// The MD5 digest of a byte string.
pub uninterp spec fn md5_digest(data: Seq<u8>) -> Seq<u8>;

/// `md5::Md5::digest` gives the 16-byte MD5 digest of its argument.
#[verifier::external_body]
pub fn md5(data: &[u8]) -> (digest: [u8; KEY_LEN])
    ensures
        digest@ == md5_digest(data@),
{
    let digest = md5::Md5::digest(data);
    let mut output = [0u8; KEY_LEN];
    output.copy_from_slice(&digest);
    output
}

/// One AES-128 block under a key.
pub uninterp spec fn aes128_encrypted(key: Seq<u8>, block: Seq<u8>) -> Seq<u8>;

/// The block that AES-128 encrypts to a given one under a key.
pub uninterp spec fn aes128_decrypted(key: Seq<u8>, block: Seq<u8>) -> Seq<u8>;

/// `aes::Aes128::encrypt_block` encrypts one block; `decrypt_block` under the
/// same key takes it back.
#[verifier::external_body]
fn aes_encrypt_block(key: &[u8; KEY_LEN], block: &[u8; AES_BLOCK_LEN]) -> (out: [u8; AES_BLOCK_LEN])
    ensures
        out@ == aes128_encrypted(key@, block@),
        aes128_decrypted(key@, out@) == block@,
{
    let cipher = Aes128::new(&Array::from(*key));
    let mut generic_block = Array::from(*block);
    cipher.encrypt_block(&mut generic_block);
    generic_block.into()
}

/// `aes::Aes128::decrypt_block` decrypts one block; `encrypt_block` under the
/// same key takes it back.
#[verifier::external_body]
fn aes_decrypt_block(key: &[u8; KEY_LEN], block: &[u8; AES_BLOCK_LEN]) -> (out: [u8; AES_BLOCK_LEN])
    ensures
        out@ == aes128_decrypted(key@, block@),
        aes128_encrypted(key@, out@) == block@,
{
    let cipher = Aes128::new(&Array::from(*key));
    let mut generic_block = Array::from(*block);
    cipher.decrypt_block(&mut generic_block);
    generic_block.into()
}

/// The byte that stands for a character: its ASCII code, or `?` where it has none.
pub open spec fn ascii_byte(character: char) -> u8 {
    if (character as u32) < 0x80 {
        character as u8
    } else {
        0x3f
    }
}

pub open spec fn us_ascii(text: Seq<char>) -> Seq<u8> {
    text.map_values(|character: char| ascii_byte(character))
}

/// Converts text to US-ASCII as Java's `String.getBytes` does: each character
/// without an ASCII code contributes one `?`.
pub fn java_us_ascii(value: &str) -> (bytes: Vec<u8>)
    ensures
        bytes@ == us_ascii(value@),
{
    let chars = chars_of(value);
    let mut bytes: Vec<u8> = Vec::new();
    let mut i: usize = 0;
    while i < chars.len()
        invariant
            chars@ == value@,
            i <= chars@.len(),
            bytes@ =~= us_ascii(value@).take(i as int),
        decreases chars@.len() - i,
    {
        let character: char = chars[i];
        if (character as u32) < 0x80 {
            bytes.push(character as u8);
        } else {
            bytes.push(0x3f);
        }
        i += 1;
    }
    assert(us_ascii(value@).take(i as int) =~= us_ascii(value@));
    bytes
}

/// The bytes `mw`.
pub open spec fn password_key_prefix() -> Seq<u8> {
    seq![0x6du8, 0x77u8]
}

/// Derives the data-plane session key: the MD5 digest of user name and password in ASCII.
pub fn derive_session_key(username: &str, password: &str) -> (key: [u8; KEY_LEN])
    ensures
        key@ == md5_digest(us_ascii(username@) + us_ascii(password@)),
{
    let mut input = java_us_ascii(username);
    let password_bytes = java_us_ascii(password);
    push_all(&mut input, password_bytes.as_slice());
    md5(input.as_slice())
}

/// Derives the key that wraps a password: the MD5 digest of `mw` and the user name in ASCII.
pub fn derive_password_key(username: &str) -> (key: [u8; KEY_LEN])
    ensures
        key@ == md5_digest(password_key_prefix() + us_ascii(username@)),
{
    let mut input: Vec<u8> = Vec::new();
    input.push(0x6d);
    input.push(0x77);
    let name_bytes = java_us_ascii(username);
    push_all(&mut input, name_bytes.as_slice());
    assert(input@ =~= password_key_prefix() + us_ascii(username@));
    md5(input.as_slice())
}

/// The block of a byte string that begins at a position, filled up with zeros.
pub open spec fn block_at(data: Seq<u8>, start: int) -> Seq<u8> {
    Seq::new(16, |i: int| if start + i < data.len() { data[start + i] } else { 0 })
}

fn read_block(data: &[u8], start: usize) -> (block: [u8; AES_BLOCK_LEN])
    requires
        start <= data@.len(),
    ensures
        block@ == block_at(data@, start as int),
{
    let mut block: [u8; AES_BLOCK_LEN] = [0u8; AES_BLOCK_LEN];
    let mut i: usize = 0;
    while i < AES_BLOCK_LEN && i < data.len() - start
        invariant
            start <= data@.len(),
            i <= AES_BLOCK_LEN,
            i <= data@.len() - start,
            forall|k: int| 0 <= k < i ==> block@[k] == data@[start + k],
            forall|k: int| i <= k < AES_BLOCK_LEN ==> block@[k] == 0,
        decreases AES_BLOCK_LEN - i,
    {
        block[i] = data[start + i];
        i += 1;
    }
    assert(block@ =~= block_at(data@, start as int));
    block
}

/// Encrypts the fixed-size password field of an opening packet: the password in
/// ASCII, cut or zero-padded to one block, under the user's password key.
pub fn encrypt_password(password: &str, username: &str) -> (field: [u8; KEY_LEN])
    ensures
        field@ == aes128_encrypted(
            md5_digest(password_key_prefix() + us_ascii(username@)),
            block_at(us_ascii(password@), 0),
        ),
        aes128_decrypted(md5_digest(password_key_prefix() + us_ascii(username@)), field@)
            == block_at(us_ascii(password@), 0),
{
    let key = derive_password_key(username);
    let password_bytes = java_us_ascii(password);
    let block = read_block(password_bytes.as_slice(), 0);
    aes_encrypt_block(&key, &block)
}

/// A byte string filled up with zeros to whole AES blocks.
pub open spec fn zero_padded(data: Seq<u8>) -> Seq<u8> {
    data + Seq::new(((16 - data.len() % 16) % 16) as nat, |i: int| 0u8)
}

/// Filling up takes a byte string to the next whole number of blocks, keeps its
/// bytes and adds zeros only.
pub proof fn law_padding_fills_the_last_block(data: Seq<u8>)
    ensures
        zero_padded(data).len() == 16 * ((data.len() + 15) / 16),
        zero_padded(data).take(data.len() as int) == data,
        forall|i: int| data.len() <= i < zero_padded(data).len() ==> zero_padded(data)[i] == 0,
{
    assert(zero_padded(data).take(data.len() as int) =~= data);
}

/// Every whole block of a byte string, encrypted on its own.
pub open spec fn ecb_encrypted(key: Seq<u8>, data: Seq<u8>) -> Seq<u8>
    decreases data.len(),
{
    if data.len() < 16 {
        Seq::empty()
    } else {
        ecb_encrypted(key, data.take(data.len() - 16)) + aes128_encrypted(
            key,
            data.skip(data.len() - 16),
        )
    }
}

/// Every whole block of a byte string, decrypted on its own.
pub open spec fn ecb_decrypted(key: Seq<u8>, data: Seq<u8>) -> Seq<u8>
    decreases data.len(),
{
    if data.len() < 16 {
        Seq::empty()
    } else {
        ecb_decrypted(key, data.take(data.len() - 16)) + aes128_decrypted(
            key,
            data.skip(data.len() - 16),
        )
    }
}

/// A byte string combined with the first eight bytes of a key, over and over.
pub open spec fn xored(key: Seq<u8>, data: Seq<u8>) -> Seq<u8> {
    Seq::new(data.len(), |i: int| data[i] ^ key[i % 8])
}

/// The cipher of a session's payload.
pub trait DataCipher {
    /// Which method this is.
    spec fn kind(&self) -> EncryptionMethod;

    /// The ciphertext of a plaintext.
    spec fn encrypted(&self, plaintext: Seq<u8>) -> Seq<u8>;

    /// The plaintext of a ciphertext, or why there is none.
    spec fn decrypted(&self, ciphertext: Seq<u8>) -> Result<Seq<u8>, Error>;

    /// What decryption makes of an encrypted plaintext.
    spec fn restored(&self, plaintext: Seq<u8>) -> Seq<u8>;

    fn method(&self) -> (method: EncryptionMethod)
        ensures
            method == self.kind(),
    ;

    /// Encrypts a payload. Decrypting the ciphertext gives the payload back,
    /// behind which a block cipher may leave zeros; what comes back is as long as
    /// the ciphertext.
    fn encrypt(&self, plaintext: &[u8]) -> (result: Result<Vec<u8>, Error>)
        requires
            plaintext@.len() <= isize::MAX,
        ensures
            result matches Ok(ciphertext) && ciphertext@ == self.encrypted(plaintext@)
                && self.decrypted(ciphertext@) == Ok::<Seq<u8>, Error>(self.restored(plaintext@))
                && ciphertext@.len() == self.restored(plaintext@).len(),
    ;

    fn decrypt(&self, ciphertext: &[u8]) -> (result: Result<Vec<u8>, Error>)
        ensures
            match result {
                Ok(plaintext) => self.decrypted(ciphertext@) == Ok::<Seq<u8>, Error>(plaintext@),
                Err(error) => self.decrypted(ciphertext@) == Err::<Seq<u8>, Error>(error),
            },
    ;
}

/// Leaves payloads as they are.
#[derive(Debug, Default)]
pub struct NoCipher;

impl DataCipher for NoCipher {
    open spec fn kind(&self) -> EncryptionMethod {
        EncryptionMethod::Clear
    }

    open spec fn encrypted(&self, plaintext: Seq<u8>) -> Seq<u8> {
        plaintext
    }

    open spec fn decrypted(&self, ciphertext: Seq<u8>) -> Result<Seq<u8>, Error> {
        Ok(ciphertext)
    }

    open spec fn restored(&self, plaintext: Seq<u8>) -> Seq<u8> {
        plaintext
    }

    fn method(&self) -> (method: EncryptionMethod) {
        EncryptionMethod::Clear
    }

    fn encrypt(&self, plaintext: &[u8]) -> (result: Result<Vec<u8>, Error>) {
        Ok(slice_to_vec(plaintext))
    }

    fn decrypt(&self, ciphertext: &[u8]) -> (result: Result<Vec<u8>, Error>) {
        Ok(slice_to_vec(ciphertext))
    }
}

/// Combines payloads with the first eight bytes of the session key.
#[derive(Clone)]
pub struct XorCipher {
    key: [u8; KEY_LEN],
}

/// Combining a byte string twice with the same key gives it back.
pub proof fn law_xor_restores(key: Seq<u8>, data: Seq<u8>)
    ensures
        xored(key, xored(key, data)) == data,
{
    assert forall|i: int| 0 <= i < data.len() implies #[trigger] xored(key, xored(key, data))[i]
        == data[i] by {
        let byte = data[i];
        let mask = key[i % 8];
        assert((byte ^ mask) ^ mask == byte) by (bit_vector);
    }
    assert(xored(key, xored(key, data)) =~= data);
}

impl XorCipher {
    pub closed spec fn key(&self) -> Seq<u8> {
        self.key@
    }

    pub fn new(key: [u8; KEY_LEN]) -> (cipher: Self)
        ensures
            cipher.key() == key@,
    {
        XorCipher { key }
    }

    fn apply(&self, input: &[u8]) -> (output: Vec<u8>)
        ensures
            output@ == xored(self.key(), input@),
    {
        let mut output: Vec<u8> = Vec::new();
        let mut i: usize = 0;
        while i < input.len()
            invariant
                i <= input@.len(),
                output@ =~= xored(self.key(), input@).take(i as int),
            decreases input@.len() - i,
        {
            output.push(input[i] ^ self.key[i % XOR_KEY_LEN]);
            i += 1;
        }
        assert(xored(self.key(), input@).take(i as int) =~= xored(self.key(), input@));
        output
    }

    /// A description that leaves the key out.
    pub fn debug_string(&self) -> (text: String)
        ensures
            text@ == "XorCipher { key: \"[REDACTED]\" }"@,
    {
        "XorCipher { key: \"[REDACTED]\" }".to_owned()
    }
}

impl DataCipher for XorCipher {
    open spec fn kind(&self) -> EncryptionMethod {
        EncryptionMethod::Xor
    }

    open spec fn encrypted(&self, plaintext: Seq<u8>) -> Seq<u8> {
        xored(self.key(), plaintext)
    }

    open spec fn decrypted(&self, ciphertext: Seq<u8>) -> Result<Seq<u8>, Error> {
        Ok(xored(self.key(), ciphertext))
    }

    open spec fn restored(&self, plaintext: Seq<u8>) -> Seq<u8> {
        plaintext
    }

    fn method(&self) -> (method: EncryptionMethod) {
        EncryptionMethod::Xor
    }

    fn encrypt(&self, plaintext: &[u8]) -> (result: Result<Vec<u8>, Error>) {
        proof {
            law_xor_restores(self.key(), plaintext@);
        }
        Ok(self.apply(plaintext))
    }

    fn decrypt(&self, ciphertext: &[u8]) -> (result: Result<Vec<u8>, Error>) {
        Ok(self.apply(ciphertext))
    }
}

/// Encrypts payloads block by block with AES-128, zero-padded.
#[derive(Clone)]
pub struct AesCipher {
    key: [u8; KEY_LEN],
}

impl AesCipher {
    pub closed spec fn key(&self) -> Seq<u8> {
        self.key@
    }

    pub fn new(key: [u8; KEY_LEN]) -> (cipher: Self)
        ensures
            cipher.key() == key@,
    {
        AesCipher { key }
    }

    /// A description that leaves the key out.
    pub fn debug_string(&self) -> (text: String)
        ensures
            text@ == "AesCipher([REDACTED])"@,
    {
        "AesCipher([REDACTED])".to_owned()
    }
}

impl DataCipher for AesCipher {
    open spec fn kind(&self) -> EncryptionMethod {
        EncryptionMethod::Aes
    }

    open spec fn encrypted(&self, plaintext: Seq<u8>) -> Seq<u8> {
        ecb_encrypted(self.key(), zero_padded(plaintext))
    }

    open spec fn decrypted(&self, ciphertext: Seq<u8>) -> Result<Seq<u8>, Error> {
        if ciphertext.len() % 16 != 0 {
            Err(Error::Crypto("AES ciphertext length is not a multiple of 16"))
        } else {
            Ok(ecb_decrypted(self.key(), ciphertext))
        }
    }

    open spec fn restored(&self, plaintext: Seq<u8>) -> Seq<u8> {
        zero_padded(plaintext)
    }

    fn method(&self) -> (method: EncryptionMethod) {
        EncryptionMethod::Aes
    }

    fn encrypt(&self, plaintext: &[u8]) -> (result: Result<Vec<u8>, Error>)
        ensures
            result matches Ok(ciphertext) && ciphertext@.len() == 16 * ((plaintext@.len() + 15)
                / 16) && self.decrypted(ciphertext@) == Ok::<Seq<u8>, Error>(
                zero_padded(plaintext@),
            ),
    {
        proof {
            law_padding_fills_the_last_block(plaintext@);
        }
        let mut output: Vec<u8> = Vec::new();
        let ghost padded = zero_padded(plaintext@);
        let mut start: usize = 0;
        while start < plaintext.len()
            invariant
                plaintext@.len() <= isize::MAX,
                padded == zero_padded(plaintext@),
                start % 16 == 0,
                start <= padded.len(),
                output@.len() == start,
                output@ == ecb_encrypted(self.key(), padded.take(start as int)),
                ecb_decrypted(self.key(), output@) == padded.take(start as int),
            decreases padded.len() - start,
        {
            let ghost before = output@;
            let block = read_block(plaintext, start);
            let sealed = aes_encrypt_block(&self.key, &block);
            push_all(&mut output, sealed.as_slice());
            proof {
                let next = start + 16;
                assert(next <= padded.len());
                let head = padded.take(next);
                assert(block@ =~= head.skip(next - 16));
                assert(head.take(next - 16) =~= padded.take(start as int));
                assert(output@.take(next - 16) =~= before);
                assert(output@.skip(next - 16) =~= sealed@);
                assert(head =~= padded.take(start as int) + block@);
            }
            start += AES_BLOCK_LEN;
        }
        assert(padded.take(start as int) =~= padded);
        Ok(output)
    }

    fn decrypt(&self, ciphertext: &[u8]) -> (result: Result<Vec<u8>, Error>)
        ensures
            match result {
                Ok(plaintext) => ciphertext@.len() % 16 == 0 && plaintext@.len()
                    == ciphertext@.len(),
                Err(error) => ciphertext@.len() % 16 != 0 && error is Crypto,
            },
    {
        if ciphertext.len() % AES_BLOCK_LEN != 0 {
            return Err(Error::Crypto("AES ciphertext length is not a multiple of 16"));
        }
        let mut output: Vec<u8> = Vec::new();
        let mut start: usize = 0;
        while start < ciphertext.len()
            invariant
                ciphertext@.len() % 16 == 0,
                start % 16 == 0,
                start <= ciphertext@.len(),
                output@.len() == start,
                output@ == ecb_decrypted(self.key(), ciphertext@.take(start as int)),
            decreases ciphertext@.len() - start,
        {
            assert(start + 16 <= ciphertext@.len());
            let block = read_block(ciphertext, start);
            let opened = aes_decrypt_block(&self.key, &block);
            push_all(&mut output, opened.as_slice());
            proof {
                let head = ciphertext@.take(start + 16);
                assert(block@ =~= head.skip(start as int));
                assert(head.take(start as int) =~= ciphertext@.take(start as int));
            }
            start += AES_BLOCK_LEN;
        }
        assert(ciphertext@.take(start as int) =~= ciphertext@);
        Ok(output)
    }
}

/// The ciphertext of a payload by a method under a session key.
pub open spec fn sealed(method: EncryptionMethod, key: Seq<u8>, payload: Seq<u8>) -> Seq<u8> {
    match method {
        EncryptionMethod::Clear => payload,
        EncryptionMethod::Xor => xored(key, payload),
        EncryptionMethod::Aes => ecb_encrypted(key, zero_padded(payload)),
    }
}

/// The payload of a ciphertext by a method under a session key, or why there is none.
pub open spec fn opened(method: EncryptionMethod, key: Seq<u8>, ciphertext: Seq<u8>) -> Result<
    Seq<u8>,
    Error,
> {
    match method {
        EncryptionMethod::Clear => Ok(ciphertext),
        EncryptionMethod::Xor => Ok(xored(key, ciphertext)),
        EncryptionMethod::Aes => if ciphertext.len() % 16 != 0 {
            Err(Error::Crypto("AES ciphertext length is not a multiple of 16"))
        } else {
            Ok(ecb_decrypted(key, ciphertext))
        },
    }
}

/// What a method gives back of a payload that it encrypted: the payload,
/// behind which AES leaves the zeros that filled its last block.
pub open spec fn given_back(method: EncryptionMethod, payload: Seq<u8>) -> Seq<u8> {
    match method {
        EncryptionMethod::Aes => zero_padded(payload),
        _ => payload,
    }
}

/// The cipher of a session, by its method.
pub enum SessionCipher {
    Clear(NoCipher),
    Xor(XorCipher),
    Aes(AesCipher),
}

impl DataCipher for SessionCipher {
    open spec fn kind(&self) -> EncryptionMethod {
        match self {
            SessionCipher::Clear(_) => EncryptionMethod::Clear,
            SessionCipher::Xor(_) => EncryptionMethod::Xor,
            SessionCipher::Aes(_) => EncryptionMethod::Aes,
        }
    }

    open spec fn encrypted(&self, plaintext: Seq<u8>) -> Seq<u8> {
        match self {
            SessionCipher::Clear(cipher) => cipher.encrypted(plaintext),
            SessionCipher::Xor(cipher) => cipher.encrypted(plaintext),
            SessionCipher::Aes(cipher) => cipher.encrypted(plaintext),
        }
    }

    open spec fn decrypted(&self, ciphertext: Seq<u8>) -> Result<Seq<u8>, Error> {
        match self {
            SessionCipher::Clear(cipher) => cipher.decrypted(ciphertext),
            SessionCipher::Xor(cipher) => cipher.decrypted(ciphertext),
            SessionCipher::Aes(cipher) => cipher.decrypted(ciphertext),
        }
    }

    open spec fn restored(&self, plaintext: Seq<u8>) -> Seq<u8> {
        match self {
            SessionCipher::Clear(cipher) => cipher.restored(plaintext),
            SessionCipher::Xor(cipher) => cipher.restored(plaintext),
            SessionCipher::Aes(cipher) => cipher.restored(plaintext),
        }
    }

    fn method(&self) -> (method: EncryptionMethod) {
        match self {
            SessionCipher::Clear(cipher) => cipher.method(),
            SessionCipher::Xor(cipher) => cipher.method(),
            SessionCipher::Aes(cipher) => cipher.method(),
        }
    }

    fn encrypt(&self, plaintext: &[u8]) -> (result: Result<Vec<u8>, Error>) {
        match self {
            SessionCipher::Clear(cipher) => cipher.encrypt(plaintext),
            SessionCipher::Xor(cipher) => cipher.encrypt(plaintext),
            SessionCipher::Aes(cipher) => cipher.encrypt(plaintext),
        }
    }

    fn decrypt(&self, ciphertext: &[u8]) -> (result: Result<Vec<u8>, Error>) {
        match self {
            SessionCipher::Clear(cipher) => cipher.decrypt(ciphertext),
            SessionCipher::Xor(cipher) => cipher.decrypt(ciphertext),
            SessionCipher::Aes(cipher) => cipher.decrypt(ciphertext),
        }
    }
}

impl SessionCipher {
    /// Payloads are sealed by a method, under the key of credentials.
    pub open spec fn seals(
        self,
        method: EncryptionMethod,
        username: Seq<char>,
        password: Seq<char>,
    ) -> bool {
        let key = md5_digest(us_ascii(username) + us_ascii(password));
        &&& self.kind() == method
        &&& forall|data: Seq<u8>| #[trigger] self.encrypted(data) == sealed(method, key, data)
        &&& forall|data: Seq<u8>| #[trigger] self.decrypted(data) == opened(method, key, data)
        &&& forall|data: Seq<u8>| #[trigger] self.restored(data) == given_back(method, data)
    }

    /// Makes the cipher of a session from the credentials that opened it.
    pub fn new(method: EncryptionMethod, username: &str, password: &str) -> (cipher: Self)
        ensures
            cipher.seals(method, username@, password@),
    {
        match method {
            EncryptionMethod::Clear => SessionCipher::Clear(NoCipher),
            EncryptionMethod::Xor => SessionCipher::Xor(
                XorCipher::new(derive_session_key(username, password)),
            ),
            EncryptionMethod::Aes => SessionCipher::Aes(
                AesCipher::new(derive_session_key(username, password)),
            ),
        }
    }
}

/// Creates the cipher of a session from the credentials that opened it.
pub fn create_cipher(method: EncryptionMethod, username: &str, password: &str) -> (result: Result<
    Box<dyn DataCipher>,
    Error,
>)
    ensures
        result matches Ok(cipher) && cipher.kind() == method && ({
            let key = md5_digest(us_ascii(username@) + us_ascii(password@));
            &&& forall|data: Seq<u8>| #[trigger]
                cipher.encrypted(data) == sealed(method, key, data)
            &&& forall|data: Seq<u8>| #[trigger]
                cipher.decrypted(data) == opened(method, key, data)
            &&& forall|data: Seq<u8>| #[trigger] cipher.restored(data) == given_back(method, data)
        }),
{
    Ok(Box::new(SessionCipher::new(method, username, password)))
}

/// An inner packet as long as it declares to be is what trimming leaves of the
/// payload that any method gives back.
pub proof fn law_inner_packet_survives(method: EncryptionMethod, packet: Seq<u8>)
    requires
        declared_length(packet) == Ok::<int, Error>(packet.len() as int),
    ensures
        trimmed(given_back(method, packet)) == Ok::<Seq<u8>, Error>(packet),
{
    let none = Seq::<u8>::empty();
    assert(packet + none =~= packet);
    law_trim_removes_padding(packet, none);
    law_trim_removes_padding(
        packet,
        Seq::new(((16 - packet.len() % 16) % 16) as nat, |i: int| 0u8),
    );
}

/// Each byte of a payload is mixed with one of the first eight bytes of the key, in
/// turn.
pub proof fn law_xor_bytes(key: Seq<u8>, data: Seq<u8>, i: int)
    requires
        0 <= i < data.len(),
    ensures
        sealed(EncryptionMethod::Xor, key, data).len() == data.len(),
        sealed(EncryptionMethod::Xor, key, data)[i] == data[i] ^ key[i % 8],
        opened(EncryptionMethod::Xor, key, data) == Ok::<Seq<u8>, Error>(
            sealed(EncryptionMethod::Xor, key, data),
        ),
{
}

proof fn lemma_ecb_length(key: Seq<u8>, data: Seq<u8>)
    requires
        data.len() % 16 == 0,
        forall|block: Seq<u8>| block.len() == 16 ==> (#[trigger] aes128_encrypted(key, block)).len() == 16,
    ensures
        ecb_encrypted(key, data).len() == data.len(),
    decreases data.len(),
{
    if data.len() >= 16 {
        lemma_ecb_length(key, data.take(data.len() - 16));
        assert(data.skip(data.len() - 16).len() == 16);
    }
}

proof fn lemma_ecb_block(key: Seq<u8>, data: Seq<u8>, k: int)
    requires
        data.len() % 16 == 0,
        0 <= k < data.len() / 16,
        forall|block: Seq<u8>| block.len() == 16 ==> (#[trigger] aes128_encrypted(key, block)).len() == 16,
    ensures
        ecb_encrypted(key, data).len() == data.len(),
        ecb_encrypted(key, data).subrange(16 * k, 16 * k + 16) == aes128_encrypted(
            key,
            data.subrange(16 * k, 16 * k + 16),
        ),
    decreases data.len(),
{
    let head = data.take(data.len() - 16);
    let block = data.skip(data.len() - 16);
    lemma_ecb_length(key, data);
    lemma_ecb_length(key, head);
    assert(block.len() == 16);
    let done = ecb_encrypted(key, head);
    let whole = ecb_encrypted(key, data);
    assert(whole == done + aes128_encrypted(key, block));
    if 16 * k == data.len() - 16 {
        assert(data.subrange(16 * k, 16 * k + 16) =~= block);
        assert(whole.subrange(16 * k, 16 * k + 16) =~= aes128_encrypted(key, block));
    } else {
        lemma_ecb_block(key, head, k);
        assert(head.subrange(16 * k, 16 * k + 16) =~= data.subrange(16 * k, 16 * k + 16));
        assert(whole.subrange(16 * k, 16 * k + 16) =~= done.subrange(16 * k, 16 * k + 16));
    }
}

/// Under AES each block of sixteen bytes stands for itself: a block of the
/// ciphertext is that of the payload, encrypted under the key, and the last one is
/// filled up with zeros. What is not made of whole blocks cannot be decrypted.
pub proof fn law_blocks_stand_alone(key: Seq<u8>, data: Seq<u8>, k: int)
    requires
        0 <= k < data.len() / 16,
        forall|block: Seq<u8>| block.len() == 16 ==> (#[trigger] aes128_encrypted(key, block)).len() == 16,
    ensures
        sealed(EncryptionMethod::Aes, key, data).subrange(16 * k, 16 * k + 16) == aes128_encrypted(
            key,
            data.subrange(16 * k, 16 * k + 16),
        ),
        data.len() <= sealed(EncryptionMethod::Aes, key, data).len() < data.len() + 16,
        sealed(EncryptionMethod::Aes, key, data).len() % 16 == 0,
        data.len() % 16 != 0 ==> opened(EncryptionMethod::Aes, key, data) == Err::<Seq<u8>, Error>(
            Error::Crypto("AES ciphertext length is not a multiple of 16"),
        ),
{
    let padded = zero_padded(data);
    law_padding_fills_the_last_block(data);
    assert(padded.len() % 16 == 0);
    lemma_ecb_block(key, padded, k);
    assert(padded.subrange(16 * k, 16 * k + 16) =~= data.subrange(16 * k, 16 * k + 16));
}

/// Without encryption a payload goes out and comes in as it is.
pub proof fn law_clear_payload(key: Seq<u8>, data: Seq<u8>)
    ensures
        sealed(EncryptionMethod::Clear, key, data) == data,
        opened(EncryptionMethod::Clear, key, data) == Ok::<Seq<u8>, Error>(data),
        given_back(EncryptionMethod::Clear, data) == data,
        given_back(EncryptionMethod::Xor, data) == data,
{
}

proof fn lemma_ascii_byte(character: char)
    requires
        (character as u32) < 128,
    ensures
        ascii_byte(character) as u32 == character as u32,
{
}

/// Names and passwords become bytes one by one, and a question mark stands for
/// what is not ASCII.
pub proof fn law_ascii_bytes(value: &str, bytes: Vec<u8>, i: int)
    requires
        call_ensures(java_us_ascii, (value,), bytes),
        0 <= i < value@.len(),
    ensures
        bytes@.len() == value@.len(),
        (value@[i] as u32) < 128 ==> bytes@[i] as u32 == value@[i] as u32,
        (value@[i] as u32) >= 128 ==> bytes@[i] == 63,
{
    if (value@[i] as u32) < 128 {
        lemma_ascii_byte(value@[i]);
    }
}

/// The session key is the digest of the name and then the password; the password's
/// own key is that of "mw" and then the name, and what it encrypts is the
/// password's first sixteen bytes, filled up with zeros.
pub proof fn law_keys(
    username: &str,
    password: &str,
    session: [u8; KEY_LEN],
    own: [u8; KEY_LEN],
    field: [u8; KEY_LEN],
    name: Seq<u8>,
    secret: Seq<u8>,
    block: Seq<u8>,
)
    requires
        call_ensures(derive_session_key, (username, password), session),
        call_ensures(derive_password_key, (username,), own),
        call_ensures(encrypt_password, (password, username), field),
        name.len() == username@.len(),
        forall|i: int| 0 <= i < name.len() ==> (username@[i] as u32) < 128 && #[trigger] name[i] as u32 == username@[i] as u32,
        secret.len() == password@.len(),
        forall|i: int| 0 <= i < secret.len() ==> (password@[i] as u32) < 128 && #[trigger] secret[i] as u32 == password@[i] as u32,
        block.len() == 16,
        forall|i: int| 0 <= i < 16 ==> #[trigger] block[i] == if i < secret.len() {
            secret[i]
        } else {
            0
        },
    ensures
        session@ == md5_digest(name + secret),
        own@ == md5_digest(seq![109u8, 119u8] + name),
        field@ == aes128_encrypted(own@, block),
{
    assert forall|i: int| 0 <= i < name.len() implies us_ascii(username@)[i] == name[i] by {
        assert(name[i] as u32 == username@[i] as u32);
        lemma_ascii_byte(username@[i]);
    }
    assert forall|i: int| 0 <= i < secret.len() implies us_ascii(password@)[i] == secret[i] by {
        assert(secret[i] as u32 == password@[i] as u32);
        lemma_ascii_byte(password@[i]);
    }
    assert(us_ascii(username@) =~= name);
    assert(us_ascii(password@) =~= secret);
    assert(block_at(us_ascii(password@), 0) =~= block);
}

proof fn lemma_ecb_opened_length(key: Seq<u8>, data: Seq<u8>)
    requires
        data.len() % 16 == 0,
        forall|block: Seq<u8>| block.len() == 16 ==> (#[trigger] aes128_decrypted(key, block)).len() == 16,
    ensures
        ecb_decrypted(key, data).len() == data.len(),
    decreases data.len(),
{
    if data.len() >= 16 {
        lemma_ecb_opened_length(key, data.take(data.len() - 16));
        assert(data.skip(data.len() - 16).len() == 16);
    }
}

/// A ciphertext of whole blocks is decrypted block by block.
pub proof fn law_blocks_are_opened_alone(key: Seq<u8>, data: Seq<u8>, k: int)
    requires
        data.len() % 16 == 0,
        0 <= k < data.len() / 16,
        forall|block: Seq<u8>| block.len() == 16 ==> (#[trigger] aes128_decrypted(key, block)).len() == 16,
    ensures
        opened(EncryptionMethod::Aes, key, data) is Ok,
        opened(EncryptionMethod::Aes, key, data)->Ok_0.len() == data.len(),
        opened(EncryptionMethod::Aes, key, data)->Ok_0.subrange(16 * k, 16 * k + 16)
            == aes128_decrypted(key, data.subrange(16 * k, 16 * k + 16)),
    decreases data.len(),
{
    let head = data.take(data.len() - 16);
    let block = data.skip(data.len() - 16);
    lemma_ecb_opened_length(key, data);
    lemma_ecb_opened_length(key, head);
    assert(block.len() == 16);
    let done = ecb_decrypted(key, head);
    let whole = ecb_decrypted(key, data);
    assert(whole == done + aes128_decrypted(key, block));
    if 16 * k == data.len() - 16 {
        assert(data.subrange(16 * k, 16 * k + 16) =~= block);
        assert(whole.subrange(16 * k, 16 * k + 16) =~= aes128_decrypted(key, block));
    } else {
        law_blocks_are_opened_alone(key, head, k);
        assert(head.subrange(16 * k, 16 * k + 16) =~= data.subrange(16 * k, 16 * k + 16));
        assert(whole.subrange(16 * k, 16 * k + 16) =~= done.subrange(16 * k, 16 * k + 16));
    }
}

/// A session's cipher is of the method that it was made for.
pub proof fn law_cipher_kinds(cipher: SessionCipher, method: EncryptionMethod)
    requires
        call_ensures(SessionCipher::method, (&cipher,), method),
    ensures
        cipher is Clear ==> method is Clear && cipher.kind() is Clear,
        cipher is Xor ==> method is Xor && cipher.kind() is Xor,
        cipher is Aes ==> method is Aes && cipher.kind() is Aes,
{
}

/// The cipher that is made for a method, a name and a password seals under it with
/// the digest of the two.
pub proof fn law_made_cipher(
    method: EncryptionMethod,
    username: &str,
    password: &str,
    cipher: SessionCipher,
    data: Seq<u8>,
)
    requires
        call_ensures(SessionCipher::new, (method, username, password), cipher),
    ensures
        ({
            let key = md5_digest(us_ascii(username@) + us_ascii(password@));
            &&& cipher.kind() == method
            &&& method is Clear ==> cipher.encrypted(data) == data
            &&& method is Xor ==> cipher.encrypted(data) == xored(key, data)
            &&& method is Aes ==> cipher.encrypted(data) == ecb_encrypted(key, zero_padded(data))
        }),
{
}

} // verus!

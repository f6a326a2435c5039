//! Saved credentials.
//!
//! A secret is stored in chunks under accounts of their own, and a manifest
//! under the profile's account names the chunks that count. A new secret goes
//! to new accounts, so that the old one stays readable until the manifest
//! changes. The operating system's store and the JSON notation belong to
//! whoever drives this; here stand the framing and the rules.

use crate::bytes::{push_all, push_be32, same_bytes};
use crate::bytes::{be32_bytes, law_word_round_trip};
use crate::hex::encode_hex;
use crate::hex::{hex_text, law_hex_round_trip};
use crate::cli::state::{credential_id_of, draw_bytes};
use crate::cli::state::{bytes_drawn, is_lower_hex, is_random_hex};
use crate::error::Error;
use crate::text::{
    chars_of, decimal_text, join2, join3, push_text, quoted, same_text,
};
use crate::text::{decimal, quoted_text};
use sha2::{Digest, Sha256};
use vstd::prelude::*;
use vstd::slice::{slice_subrange, slice_to_vec};

verus! {

pub const CREDENTIAL_VERSION: u32 = 1;

pub const STORAGE_VERSION: u32 = 1;

pub const SECRET_CHUNK_SIZE: usize = 2_048;

pub const MAX_CREDENTIAL_CHUNKS: u32 = 4_096;

pub const MAX_OBSOLETE_CHUNK_SETS: usize = 16;

pub const GENERATION_LEN: usize = 32;

/// The SHA-256 digest of a byte string.
pub uninterp spec fn sha256_digest(data: Seq<u8>) -> Seq<u8>;

/// `sha2::Sha256::digest` gives the 32-byte SHA-256 digest of its argument.
#[verifier::external_body]
fn sha256(data: &[u8]) -> (digest: [u8; 32])
    ensures
        digest@ == sha256_digest(data@),
{
    Sha256::digest(data).into()
}

/// Whether an error is about saved credentials, with a given message.
pub open spec fn is_store_error(error: Error, message: Seq<char>) -> bool {
    error matches Error::CredentialStore(text) && text@ == message
}

pub fn store_error(message: &str) -> (error: Error)
    ensures
        is_store_error(error, message@),
{
    Error::CredentialStore(message.to_owned())
}

/// The message on saved credentials that cannot be read.
pub open spec fn format_message(reason: Seq<char>) -> Seq<char> {
    "saved authentication has an invalid format: "@ + reason
}

pub fn invalid_format(reason: &str) -> (error: Error)
    ensures
        is_store_error(error, format_message(reason@)),
{
    Error::CredentialStore(join2("saved authentication has an invalid format: ", reason))
}

/// What is saved of a login.
pub enum StoredCredential {
    Password { username: String, password: String },
    Oidc { refresh_token: String, user_id: String, username: String },
}

/// A credential with its texts as sequences.
#[verifier::ext_equal]
pub enum CredentialView {
    Password { username: Seq<char>, password: Seq<char> },
    Oidc { refresh_token: Seq<char>, user_id: Seq<char>, username: Seq<char> },
}

impl View for StoredCredential {
    type V = CredentialView;

    open spec fn view(&self) -> CredentialView {
        match self {
            StoredCredential::Password { username, password } => CredentialView::Password {
                username: username@,
                password: password@,
            },
            StoredCredential::Oidc { refresh_token, user_id, username } => CredentialView::Oidc {
                refresh_token: refresh_token@,
                user_id: user_id@,
                username: username@,
            },
        }
    }
}

impl StoredCredential {
    /// What a description shows: everything but the secret.
    pub open spec fn shown(&self) -> Seq<char> {
        match self {
            StoredCredential::Password { username, .. } => "Password { username: "@ + quoted_text(
                username@,
            ) + ", password: \"[REDACTED]\" }"@,
            StoredCredential::Oidc {
                user_id,
                username,
                ..
            } => "Oidc { refresh_token: \"[REDACTED]\", user_id: "@ + quoted_text(user_id@)
                + ", username: "@ + quoted_text(username@) + " }"@,
        }
    }

    /// A description that leaves the secret out.
    pub fn debug_string(&self) -> (text: String)
        ensures
            text@ == self.shown(),
    {
        match self {
            StoredCredential::Password { username, .. } => {
                let name = quoted(username);
                join3("Password { username: ", &name, ", password: \"[REDACTED]\" }")
            },
            StoredCredential::Oidc { user_id, username, .. } => {
                let id = quoted(user_id);
                let name = quoted(username);
                let start = join3(
                    "Oidc { refresh_token: \"[REDACTED]\", user_id: ",
                    &id,
                    ", username: ",
                );
                join3(&start, &name, " }")
            },
        }
    }
}

/// Chunks that were written together.
pub struct ChunkSet {
    pub generation: String,
    pub chunks: u32,
}

/// The chunks that count, and what they have to add up to.
pub struct CurrentChunkSet {
    pub generation: String,
    pub chunks: u32,
    pub length: u64,
    pub sha256: [u8; 32],
}

/// Which chunks hold a secret, and which ones are still to be removed.
pub struct CredentialManifest {
    pub version: u32,
    pub current: CurrentChunkSet,
    pub obsolete: Vec<ChunkSet>,
}

#[verifier::ext_equal]
pub struct ChunkSetView {
    pub generation: Seq<char>,
    pub chunks: u32,
}

#[verifier::ext_equal]
pub struct ManifestView {
    pub version: u32,
    pub generation: Seq<char>,
    pub chunks: u32,
    pub length: u64,
    pub sha256: Seq<u8>,
    pub obsolete: Seq<ChunkSetView>,
}

impl View for ChunkSet {
    type V = ChunkSetView;

    open spec fn view(&self) -> ChunkSetView {
        ChunkSetView { generation: self.generation@, chunks: self.chunks }
    }
}

/// The views of sets.
pub open spec fn sets(list: Seq<ChunkSet>) -> Seq<ChunkSetView> {
    list.map_values(|set: ChunkSet| set@)
}

impl View for CredentialManifest {
    type V = ManifestView;

    open spec fn view(&self) -> ManifestView {
        ManifestView {
            version: self.version,
            generation: self.current.generation@,
            chunks: self.current.chunks,
            length: self.current.length,
            sha256: self.current.sha256@,
            obsolete: sets(self.obsolete@),
        }
    }
}

impl ManifestView {
    /// The chunks that count.
    pub open spec fn current(self) -> ChunkSetView {
        ChunkSetView { generation: self.generation, chunks: self.chunks }
    }
}

impl ChunkSet {
    pub fn copy(&self) -> (set: Self)
        ensures
            set@ == self@,
    {
        ChunkSet { generation: self.generation.clone(), chunks: self.chunks }
    }
}

impl CurrentChunkSet {
    pub fn as_chunk_set(&self) -> (set: ChunkSet)
        ensures
            set@ == (ChunkSetView { generation: self.generation@, chunks: self.chunks }),
    {
        ChunkSet { generation: self.generation.clone(), chunks: self.chunks }
    }
}

/// A generation is 32 hexadecimal digits in lower case.
pub open spec fn valid_generation(generation: Seq<char>) -> bool {
    generation.len() == GENERATION_LEN && forall|i: int|
        0 <= i < generation.len() ==> is_lower_hex(#[trigger] generation[i])
}

fn is_generation(text: &str) -> (answer: bool)
    ensures
        answer == valid_generation(text@),
{
    let chars = chars_of(text);
    if chars.len() != GENERATION_LEN {
        return false;
    }
    let mut i: usize = 0;
    while i < chars.len()
        invariant
            chars@ == text@,
            i <= chars@.len(),
            chars@.len() == GENERATION_LEN,
            forall|k: int| 0 <= k < i ==> is_lower_hex(#[trigger] chars@[k]),
        decreases chars@.len() - i,
    {
        let code: u32 = chars[i] as u32;
        if !((0x30 <= code && code <= 0x39) || (0x61 <= code && code <= 0x66)) {
            assert(!is_lower_hex(chars@[i as int]));
            return false;
        }
        i += 1;
    }
    true
}

/// The reason why a set of chunks cannot be one.
pub open spec fn chunk_set_error(set: ChunkSetView) -> Option<Seq<char>> {
    if !valid_generation(set.generation) {
        Some("saved authentication metadata has an invalid generation"@)
    } else if set.chunks == 0 || set.chunks > MAX_CREDENTIAL_CHUNKS {
        Some("saved authentication metadata has an invalid chunk count"@)
    } else {
        None
    }
}

pub fn validate_chunk_set(generation: &str, chunks: u32) -> (result: Result<(), Error>)
    ensures
        ({
            let set = ChunkSetView { generation: generation@, chunks };
            match result {
                Ok(_) => chunk_set_error(set) is None,
                Err(error) => chunk_set_error(set) matches Some(reason) && is_store_error(
                    error,
                    format_message(reason),
                ),
            }
        }),
{
    if !is_generation(generation) {
        return Err(invalid_format("saved authentication metadata has an invalid generation"));
    }
    if chunks == 0 || chunks > MAX_CREDENTIAL_CHUNKS {
        return Err(invalid_format("saved authentication metadata has an invalid chunk count"));
    }
    Ok(())
}

/// How many chunks a secret of a given length takes.
pub open spec fn chunk_count(length: int) -> int {
    (length + SECRET_CHUNK_SIZE - 1) / (SECRET_CHUNK_SIZE as int)
}

/// Whether a generation occurs in a list.
pub open spec fn has_generation(list: Seq<ChunkSetView>, generation: Seq<char>) -> bool {
    exists|i: int| 0 <= i < list.len() && #[trigger] list[i].generation == generation
}

/// The reason why the sets to be removed cannot stand beside a generation.
pub open spec fn obsolete_error(generation: Seq<char>, list: Seq<ChunkSetView>) -> Option<Seq<char>>
    decreases list.len(),
{
    if list.len() == 0 {
        None
    } else {
        match obsolete_error(generation, list.drop_last()) {
            Some(reason) => Some(reason),
            None => match chunk_set_error(list.last()) {
                Some(reason) => Some(reason),
                None => if list.last().generation == generation || has_generation(
                    list.drop_last(),
                    list.last().generation,
                ) {
                    Some("saved authentication metadata contains duplicate generations"@)
                } else {
                    None
                },
            },
        }
    }
}

/// The reason why a manifest cannot be used.
pub open spec fn manifest_error(manifest: ManifestView) -> Option<Seq<char>> {
    if manifest.version != STORAGE_VERSION {
        Some(
            "unsupported saved-authentication storage version "@ + decimal(manifest.version as nat)
                + "; expected 1"@,
        )
    } else if chunk_set_error(manifest.current()) is Some {
        chunk_set_error(manifest.current())
    } else if manifest.length > usize::MAX {
        Some("saved authentication length is too large"@)
    } else if manifest.length == 0 || chunk_count(manifest.length as int) != manifest.chunks {
        Some("saved authentication metadata has an inconsistent length"@)
    } else if manifest.obsolete.len() > MAX_OBSOLETE_CHUNK_SETS {
        Some("saved authentication metadata contains too many stale entries"@)
    } else {
        obsolete_error(manifest.generation, manifest.obsolete)
    }
}

proof fn lemma_obsolete_error_stays(generation: Seq<char>, list: Seq<ChunkSetView>, count: int)
    requires
        0 <= count <= list.len(),
        obsolete_error(generation, list.take(count)) is Some,
    ensures
        obsolete_error(generation, list) == obsolete_error(generation, list.take(count)),
    decreases list.len() - count,
{
    if count == list.len() {
        assert(list.take(count) =~= list);
    } else {
        assert(list.take(count + 1).drop_last() =~= list.take(count));
        lemma_obsolete_error_stays(generation, list, count + 1);
    }
}

fn occurs_before(list: &Vec<ChunkSet>, count: usize, generation: &str) -> (answer: bool)
    requires
        count <= list@.len(),
    ensures
        answer == has_generation(sets(list@).take(count as int), generation@),
{
    let mut i: usize = 0;
    while i < count
        invariant
            i <= count <= list@.len(),
            forall|k: int| 0 <= k < i ==> list@[k].generation@ != generation@,
        decreases count - i,
    {
        if same_text(&list[i].generation, generation) {
            assert(sets(list@).take(count as int)[i as int].generation == generation@);
            return true;
        }
        i += 1;
    }
    proof {
        if has_generation(sets(list@).take(count as int), generation@) {
            let head = sets(list@).take(count as int);
            let k = choose|k: int|
                0 <= k < head.len() && #[trigger] head[k].generation == generation@;
            assert(list@[k].generation@ == generation@);
        }
    }
    false
}

fn validate_obsolete(generation: &str, list: &Vec<ChunkSet>) -> (result: Result<(), Error>)
    ensures
        match result {
            Ok(_) => obsolete_error(generation@, sets(list@)) is None,
            Err(error) => obsolete_error(generation@, sets(list@)) matches Some(reason)
                && is_store_error(error, format_message(reason)),
        },
{
    let ghost all = sets(list@);
    let mut i: usize = 0;
    assert(all.take(0) =~= Seq::<ChunkSetView>::empty());
    while i < list.len()
        invariant
            all == sets(list@),
            i <= list@.len(),
            obsolete_error(generation@, all.take(i as int)) is None,
        decreases list@.len() - i,
    {
        proof {
            let head = all.take(i + 1);
            assert(head.drop_last() =~= all.take(i as int));
            assert(head.last() == all[i as int]);
            if obsolete_error(generation@, head) is Some {
                lemma_obsolete_error_stays(generation@, all, i + 1);
            }
        }
        match validate_chunk_set(&list[i].generation, list[i].chunks) {
            Ok(_) => {},
            Err(error) => {
                return Err(error);
            },
        }
        if same_text(&list[i].generation, generation) || occurs_before(
            list,
            i,
            &list[i].generation,
        ) {
            return Err(
                invalid_format("saved authentication metadata contains duplicate generations"),
            );
        }
        i += 1;
    }
    assert(all.take(i as int) =~= all);
    Ok(())
}

pub fn validate_manifest(manifest: &CredentialManifest) -> (result: Result<(), Error>)
    ensures
        match result {
            Ok(_) => manifest_error(manifest@) is None,
            Err(error) => manifest_error(manifest@) matches Some(reason) && is_store_error(
                error,
                format_message(reason),
            ),
        },
{
    if manifest.version != STORAGE_VERSION {
        let shown = decimal_text(manifest.version as u64);
        let reason = join3(
            "unsupported saved-authentication storage version ",
            &shown,
            "; expected 1",
        );
        return Err(invalid_format(&reason));
    }
    match validate_chunk_set(&manifest.current.generation, manifest.current.chunks) {
        Ok(_) => {},
        Err(error) => {
            return Err(error);
        },
    }
    if manifest.current.length > usize::MAX as u64 {
        return Err(invalid_format("saved authentication length is too large"));
    }
    let size: u64 = SECRET_CHUNK_SIZE as u64;
    let length: u64 = manifest.current.length;
    let whole: u64 = length / size;
    let count: u64 = if length % size == 0 {
        whole
    } else {
        whole + 1
    };
    assert(count == chunk_count(length as int));
    if length == 0 || count != manifest.current.chunks as u64 {
        return Err(invalid_format("saved authentication metadata has an inconsistent length"));
    }
    if manifest.obsolete.len() > MAX_OBSOLETE_CHUNK_SETS {
        return Err(invalid_format("saved authentication metadata contains too many stale entries"));
    }
    validate_obsolete(&manifest.current.generation, &manifest.obsolete)
}

/// The account of a chunk.
pub open spec fn chunk_name(account: Seq<char>, generation: Seq<char>, index: u32) -> Seq<char> {
    account + ".chunk."@ + generation + "."@ + hex_text(be32_bytes(index))
}

pub fn chunk_account(account: &str, generation: &str, index: u32) -> (name: String)
    ensures
        name@ == chunk_name(account@, generation@, index),
{
    let mut digits: Vec<u8> = Vec::new();
    push_be32(&mut digits, index);
    assert(digits@ =~= be32_bytes(index));
    let shown = encode_hex(digits.as_slice());
    let mut name = account.to_owned();
    push_text(&mut name, ".chunk.");
    push_text(&mut name, generation);
    push_text(&mut name, ".");
    push_text(&mut name, &shown);
    name
}

/// The accounts of the chunks of a set.
pub open spec fn chunk_names(account: Seq<char>, set: ChunkSetView) -> Seq<Seq<char>> {
    Seq::new(set.chunks as nat, |i: int| chunk_name(account, set.generation, i as u32))
}

/// The accounts that are removed with a set of chunks.
pub fn chunk_accounts(account: &str, set: &ChunkSet) -> (names: Vec<String>)
    ensures
        crate::text::texts(names@) == chunk_names(account@, set@),
{
    let mut names: Vec<String> = Vec::new();
    let mut index: u32 = 0;
    while index < set.chunks
        invariant
            index <= set.chunks,
            crate::text::texts(names@) =~= chunk_names(account@, set@).take(index as int),
        decreases set.chunks - index,
    {
        crate::text::push_one(&mut names, chunk_account(account, &set.generation, index));
        index += 1;
    }
    assert(chunk_names(account@, set@).take(index as int) =~= chunk_names(account@, set@));
    names
}

/// A generation from the system's randomness.
pub fn new_generation() -> (result: Result<String, Error>)
    ensures
        match result {
            Ok(generation) => valid_generation(generation@) && is_random_hex(generation@),
            Err(error) => bytes_drawn(None) && is_store_error(
                error,
                "system randomness is unavailable for credential storage"@,
            ),
        },
{
    match draw_bytes() {
        Some(bytes) => {
            let generation = credential_id_of(&bytes);
            assert(bytes_drawn(Some(bytes)) && generation@ == hex_text(bytes@));
            Ok(generation)
        },
        None => Err(store_error("system randomness is unavailable for credential storage")),
    }
}

/// Whether an account can hold credentials.
pub fn validate_account(account: &str) -> (result: Result<(), Error>)
    ensures
        match result {
            Ok(_) => account@.len() > 0,
            Err(error) => account@.len() == 0 && is_store_error(
                error,
                "profile has no credential-store identifier"@,
            ),
        },
{
    let chars = chars_of(account);
    if chars.len() == 0 {
        return Err(store_error("profile has no credential-store identifier"));
    }
    Ok(())
}

/// Whether a manifest in its notation is short enough to be stored.
pub fn check_manifest_size(length: usize) -> (result: Result<(), Error>)
    ensures
        match result {
            Ok(_) => length <= SECRET_CHUNK_SIZE,
            Err(error) => length > SECRET_CHUNK_SIZE && is_store_error(
                error,
                "saved-authentication metadata is too large to store"@,
            ),
        },
{
    if length > SECRET_CHUNK_SIZE {
        return Err(store_error("saved-authentication metadata is too large to store"));
    }
    Ok(())
}

/// Whether saved credentials are of the version that can be read.
pub fn check_envelope_version(version: u32) -> (result: Result<(), Error>)
    ensures
        match result {
            Ok(_) => version == CREDENTIAL_VERSION,
            Err(error) => version != CREDENTIAL_VERSION && is_store_error(
                error,
                format_message(
                    "unsupported saved authentication version "@ + decimal(version as nat)
                        + "; expected 1"@,
                ),
            ),
        },
{
    if version != CREDENTIAL_VERSION {
        let shown = decimal_text(version as u64);
        let reason = join3("unsupported saved authentication version ", &shown, "; expected 1");
        return Err(invalid_format(&reason));
    }
    Ok(())
}

/// The views of chunks that were read.
pub open spec fn chunk_views(chunks: Seq<Option<Vec<u8>>>) -> Seq<Option<Seq<u8>>> {
    chunks.map_values(
        |chunk: Option<Vec<u8>>|
            match chunk {
                Some(bytes) => Some(bytes@),
                None => None,
            },
    )
}

/// Chunks put together, or the reason why they cannot be: a chunk that was not
/// found, or one that is too large.
pub open spec fn joined_chunks(chunks: Seq<Option<Seq<u8>>>, count: nat) -> Result<
    Seq<u8>,
    Seq<char>,
>
    decreases count,
{
    if count == 0 {
        Ok(Seq::empty())
    } else {
        let index = (count - 1) as nat;
        match joined_chunks(chunks, index) {
            Ok(before) => if index >= chunks.len() || chunks[index as int] is None {
                Err("saved authentication chunk "@ + decimal(index) + " is missing"@)
            } else if chunks[index as int]->Some_0.len() > SECRET_CHUNK_SIZE {
                Err("saved authentication chunk "@ + decimal(index) + " is too large"@)
            } else {
                Ok(before + chunks[index as int]->Some_0)
            },
            Err(reason) => Err(reason),
        }
    }
}

/// The secret that chunks make up, or the reason why they make up none.
pub open spec fn assembled(manifest: ManifestView, chunks: Seq<Option<Seq<u8>>>) -> Result<
    Seq<u8>,
    Seq<char>,
> {
    match joined_chunks(chunks, manifest.chunks as nat) {
        Ok(bytes) => if bytes.len() != manifest.length {
            Err(
                "saved authentication length is "@ + decimal(bytes.len()) + "; expected "@
                    + decimal(manifest.length as nat),
            )
        } else if sha256_digest(bytes) != manifest.sha256 {
            Err("saved authentication failed its integrity check"@)
        } else {
            Ok(bytes)
        },
        Err(reason) => Err(reason),
    }
}

proof fn lemma_join_error_stays(chunks: Seq<Option<Seq<u8>>>, early: nat, count: nat)
    requires
        early <= count,
        joined_chunks(chunks, early) is Err,
    ensures
        joined_chunks(chunks, count) == joined_chunks(chunks, early),
    decreases count - early,
{
    if early < count {
        lemma_join_error_stays(chunks, early, (count - 1) as nat);
    }
}

fn join_chunks(chunks: &Vec<Option<Vec<u8>>>, count: u32) -> (result: Result<Vec<u8>, Error>)
    ensures
        match result {
            Ok(bytes) => joined_chunks(chunk_views(chunks@), count as nat) == Ok::<
                Seq<u8>,
                Seq<char>,
            >(bytes@),
            Err(error) => joined_chunks(chunk_views(chunks@), count as nat) matches Err(reason)
                && is_store_error(error, format_message(reason)),
        },
{
    let ghost parts = chunk_views(chunks@);
    let mut bytes: Vec<u8> = Vec::new();
    let mut index: u32 = 0;
    assert(bytes@ =~= Seq::<u8>::empty());
    while index < count
        invariant
            index <= count,
            parts == chunk_views(chunks@),
            joined_chunks(parts, index as nat) == Ok::<Seq<u8>, Seq<char>>(bytes@),
        decreases count - index,
    {
        proof {
            if joined_chunks(parts, (index + 1) as nat) is Err {
                lemma_join_error_stays(parts, (index + 1) as nat, count as nat);
            }
        }
        let shown = decimal_text(index as u64);
        let mut found = false;
        if (index as usize) < chunks.len() {
            if let Some(chunk) = &chunks[index as usize] {
                if chunk.len() > SECRET_CHUNK_SIZE {
                    let reason = join3("saved authentication chunk ", &shown, " is too large");
                    return Err(invalid_format(&reason));
                }
                push_all(&mut bytes, chunk.as_slice());
                found = true;
            }
        }
        if !found {
            let reason = join3("saved authentication chunk ", &shown, " is missing");
            return Err(invalid_format(&reason));
        }
        index += 1;
    }
    Ok(bytes)
}

/// Puts the secret of a manifest together from the chunks that were read for
/// it, in order.
pub fn assemble(manifest: &CredentialManifest, chunks: &Vec<Option<Vec<u8>>>) -> (result: Result<
    Vec<u8>,
    Error,
>)
    ensures
        match result {
            Ok(bytes) => assembled(manifest@, chunk_views(chunks@)) == Ok::<Seq<u8>, Seq<char>>(
                bytes@,
            ),
            Err(error) => assembled(manifest@, chunk_views(chunks@)) matches Err(reason)
                && is_store_error(error, format_message(reason)),
        },
{
    let bytes = match join_chunks(chunks, manifest.current.chunks) {
        Ok(bytes) => bytes,
        Err(error) => {
            return Err(error);
        },
    };
    if bytes.len() as u64 != manifest.current.length {
        let found = decimal_text(bytes.len() as u64);
        let expected = decimal_text(manifest.current.length);
        let start = join3("saved authentication length is ", &found, "; expected ");
        let reason = join2(&start, &expected);
        return Err(invalid_format(&reason));
    }
    let digest = sha256(bytes.as_slice());
    if !same_bytes(digest.as_slice(), manifest.current.sha256.as_slice()) {
        return Err(invalid_format("saved authentication failed its integrity check"));
    }
    Ok(bytes)
}

/// One chunk and the account it goes to.
pub struct ChunkWrite {
    pub account: String,
    pub secret: Vec<u8>,
}

#[verifier::ext_equal]
pub struct WriteView {
    pub account: Seq<char>,
    pub secret: Seq<u8>,
}

impl View for ChunkWrite {
    type V = WriteView;

    open spec fn view(&self) -> WriteView {
        WriteView { account: self.account@, secret: self.secret@ }
    }
}

/// The views of writes.
pub open spec fn writes(list: Seq<ChunkWrite>) -> Seq<WriteView> {
    list.map_values(|write: ChunkWrite| write@)
}

/// What is written to save a secret: first the chunks, then the manifest.
pub struct SavePlan {
    pub chunks: Vec<ChunkWrite>,
    pub manifest: CredentialManifest,
}

/// One chunk of a secret.
pub open spec fn chunk_at(secret: Seq<u8>, index: int) -> Seq<u8> {
    let start = index * SECRET_CHUNK_SIZE;
    let end = start + SECRET_CHUNK_SIZE;
    secret.subrange(
        start,
        if end < secret.len() {
            end
        } else {
            secret.len() as int
        },
    )
}

/// The chunks of a secret and their accounts.
pub open spec fn chunk_writes(
    account: Seq<char>,
    generation: Seq<char>,
    secret: Seq<u8>,
) -> Seq<WriteView> {
    Seq::new(
        chunk_count(secret.len() as int) as nat,
        |i: int|
            WriteView {
                account: chunk_name(account, generation, i as u32),
                secret: chunk_at(secret, i),
            },
    )
}

/// The manifest of a secret.
pub open spec fn manifest_of(
    generation: Seq<char>,
    secret: Seq<u8>,
    obsolete: Seq<ChunkSetView>,
) -> ManifestView {
    ManifestView {
        version: STORAGE_VERSION,
        generation,
        chunks: chunk_count(secret.len() as int) as u32,
        length: secret.len() as u64,
        sha256: sha256_digest(secret),
        obsolete,
    }
}

/// The sets that a new secret makes obsolete: those that could not be removed
/// so far, and the one that counted until now.
pub open spec fn obsolete_after(
    previous: Option<ManifestView>,
    remaining: Seq<ChunkSetView>,
) -> Seq<ChunkSetView> {
    match previous {
        Some(manifest) => remaining.push(manifest.current()),
        None => Seq::empty(),
    }
}

/// The message on why a secret cannot be saved.
pub open spec fn save_error(
    account: Seq<char>,
    length: int,
    obsolete: Seq<ChunkSetView>,
) -> Option<Seq<char>> {
    if account.len() == 0 {
        Some("profile has no credential-store identifier"@)
    } else if obsolete.len() > MAX_OBSOLETE_CHUNK_SETS {
        Some("too many stale saved-authentication entries could not be removed"@)
    } else if length == 0 || chunk_count(length) > MAX_CREDENTIAL_CHUNKS {
        Some("saved authentication is too large to store"@)
    } else {
        None
    }
}

pub open spec fn manifest_view(manifest: Option<&CredentialManifest>) -> Option<ManifestView> {
    match manifest {
        Some(found) => Some(found@),
        None => None,
    }
}

fn copy_sets(list: &Vec<ChunkSet>) -> (copy: Vec<ChunkSet>)
    ensures
        sets(copy@) == sets(list@),
{
    let mut copy: Vec<ChunkSet> = Vec::new();
    let mut i: usize = 0;
    while i < list.len()
        invariant
            i <= list@.len(),
            sets(copy@) =~= sets(list@).take(i as int),
        decreases list@.len() - i,
    {
        let ghost before = sets(copy@);
        copy.push(list[i].copy());
        assert(sets(copy@) =~= before.push(sets(list@)[i as int]));
        i += 1;
    }
    assert(sets(list@).take(i as int) =~= sets(list@));
    copy
}

fn split_secret(account: &str, generation: &str, secret: &[u8], count: u32) -> (chunks: Vec<
    ChunkWrite,
>)
    requires
        count == chunk_count(secret@.len() as int),
    ensures
        writes(chunks@) == chunk_writes(account@, generation@, secret@),
{
    let ghost all = chunk_writes(account@, generation@, secret@);
    let mut chunks: Vec<ChunkWrite> = Vec::new();
    let mut index: u32 = 0;
    let mut start: usize = 0;
    while index < count
        invariant
            index <= count,
            count == chunk_count(secret@.len() as int),
            all == chunk_writes(account@, generation@, secret@),
            all.len() == count,
            index < count ==> start == index * SECRET_CHUNK_SIZE && start < secret@.len(),
            writes(chunks@) == all.take(index as int),
        decreases count - index,
    {
        let left: usize = secret.len() - start;
        let end: usize = if left > SECRET_CHUNK_SIZE {
            start + SECRET_CHUNK_SIZE
        } else {
            secret.len()
        };
        let part = slice_to_vec(slice_subrange(secret, start, end));
        let ghost before = writes(chunks@);
        let write = ChunkWrite { account: chunk_account(account, generation, index), secret: part };
        proof {
            assert(write@ =~= all[index as int]);
        }
        chunks.push(write);
        assert(writes(chunks@) =~= before.push(all[index as int]));
        assert(all.take(index as int).push(all[index as int]) =~= all.take(index + 1));
        start = end;
        index += 1;
    }
    assert(all.take(index as int) =~= all);
    chunks
}

/// Plans what is written to save a secret under a generation.
pub fn plan_save(
    account: &str,
    secret: &[u8],
    previous: Option<&CredentialManifest>,
    remaining: &Vec<ChunkSet>,
    generation: String,
) -> (result: Result<SavePlan, Error>)
    ensures
        ({
            let obsolete = obsolete_after(manifest_view(previous), sets(remaining@));
            match result {
                Ok(plan) => {
                    &&& save_error(account@, secret@.len() as int, obsolete) is None
                    &&& writes(plan.chunks@) == chunk_writes(account@, generation@, secret@)
                    &&& plan.manifest@ == manifest_of(generation@, secret@, obsolete)
                },
                Err(error) => save_error(account@, secret@.len() as int, obsolete) matches Some(
                    message,
                ) && is_store_error(error, message),
            }
        }),
{
    let obsolete = match check_save(account, secret, previous, remaining) {
        Ok(obsolete) => obsolete,
        Err(error) => {
            return Err(error);
        },
    };
    Ok(filled_plan(account, secret, obsolete, generation))
}

fn check_save(
    account: &str,
    secret: &[u8],
    previous: Option<&CredentialManifest>,
    remaining: &Vec<ChunkSet>,
) -> (result: Result<Vec<ChunkSet>, Error>)
    ensures
        ({
            let obsolete = obsolete_after(manifest_view(previous), sets(remaining@));
            match result {
                Ok(list) => save_error(account@, secret@.len() as int, obsolete) is None && sets(
                    list@,
                ) == obsolete,
                Err(error) => save_error(account@, secret@.len() as int, obsolete) matches Some(
                    message,
                ) && is_store_error(error, message),
            }
        }),
{
    match validate_account(account) {
        Ok(_) => {},
        Err(error) => {
            return Err(error);
        },
    }
    let mut obsolete: Vec<ChunkSet> = Vec::new();
    assert(sets(obsolete@) =~= Seq::empty());
    if let Some(manifest) = previous {
        obsolete = copy_sets(remaining);
        let ghost before = sets(obsolete@);
        obsolete.push(manifest.current.as_chunk_set());
        assert(sets(obsolete@) =~= before.push(manifest@.current()));
    }
    if obsolete.len() > MAX_OBSOLETE_CHUNK_SETS {
        return Err(store_error("too many stale saved-authentication entries could not be removed"));
    }
    let limit: usize = SECRET_CHUNK_SIZE * (MAX_CREDENTIAL_CHUNKS as usize);
    if secret.len() == 0 || secret.len() > limit {
        return Err(store_error("saved authentication is too large to store"));
    }
    Ok(obsolete)
}

fn filled_plan(
    account: &str,
    secret: &[u8],
    obsolete: Vec<ChunkSet>,
    generation: String,
) -> (plan: SavePlan)
    requires
        0 < secret@.len(),
        chunk_count(secret@.len() as int) <= MAX_CREDENTIAL_CHUNKS,
    ensures
        writes(plan.chunks@) == chunk_writes(account@, generation@, secret@),
        plan.manifest@ == manifest_of(generation@, secret@, sets(obsolete@)),
{
    let whole: usize = secret.len() / SECRET_CHUNK_SIZE;
    let count: u32 = if secret.len() % SECRET_CHUNK_SIZE == 0 {
        whole as u32
    } else {
        (whole + 1) as u32
    };
    assert(count == chunk_count(secret@.len() as int));
    let chunks = split_secret(account, &generation, secret, count);
    let current = CurrentChunkSet {
        generation,
        chunks: count,
        length: secret.len() as u64,
        sha256: sha256(secret),
    };
    let manifest = CredentialManifest { version: STORAGE_VERSION, current, obsolete };
    assert(manifest@ =~= manifest_of(generation@, secret@, sets(obsolete@)));
    SavePlan { chunks, manifest }
}

/// The sets whose removal failed.
pub open spec fn failed_sets(list: Seq<ChunkSetView>, failed: Seq<bool>) -> Seq<ChunkSetView>
    decreases list.len(),
{
    if list.len() == 0 {
        Seq::empty()
    } else {
        let before = failed_sets(list.drop_last(), failed);
        if list.len() <= failed.len() && failed[list.len() - 1] {
            before.push(list.last())
        } else {
            before
        }
    }
}

/// The sets that are still to be removed, where `failed` says of each whether
/// some chunk of it could not be deleted.
pub fn remaining_sets(list: &Vec<ChunkSet>, failed: &Vec<bool>) -> (remaining: Vec<ChunkSet>)
    ensures
        sets(remaining@) == failed_sets(sets(list@), failed@),
{
    let ghost all = sets(list@);
    let mut remaining: Vec<ChunkSet> = Vec::new();
    let mut i: usize = 0;
    assert(sets(remaining@) =~= failed_sets(all.take(0), failed@));
    while i < list.len()
        invariant
            i <= list@.len(),
            all == sets(list@),
            sets(remaining@) == failed_sets(all.take(i as int), failed@),
        decreases list@.len() - i,
    {
        assert(all.take(i + 1).drop_last() =~= all.take(i as int));
        if i < failed.len() && failed[i] {
            let ghost before = sets(remaining@);
            remaining.push(list[i].copy());
            assert(sets(remaining@) =~= before.push(all[i as int]));
        }
        i += 1;
    }
    assert(all.take(i as int) =~= all);
    remaining
}

impl SavePlan {
    /// The accounts to delete where the write after the first `written` chunks
    /// failed: the manifest stays as it was.
    pub fn rollback(&self, written: usize) -> (accounts: Vec<String>)
        requires
            written <= self.chunks@.len(),
        ensures
            crate::text::texts(accounts@) == write_accounts(writes(self.chunks@)).take(
                written as int,
            ),
    {
        let ghost all = write_accounts(writes(self.chunks@));
        let mut accounts: Vec<String> = Vec::new();
        let mut i: usize = 0;
        while i < written
            invariant
                i <= written <= self.chunks@.len(),
                all == write_accounts(writes(self.chunks@)),
                crate::text::texts(accounts@) =~= all.take(i as int),
            decreases written - i,
        {
            crate::text::push_one(&mut accounts, self.chunks[i].account.clone());
            i += 1;
        }
        accounts
    }

    /// The manifest to write once obsolete sets were removed, where some were.
    pub fn settle(self, failed: &Vec<bool>) -> (manifest: Option<CredentialManifest>)
        ensures
            ({
                let before = self.manifest@;
                let remaining = failed_sets(before.obsolete, failed@);
                match manifest {
                    Some(after) => remaining.len() != before.obsolete.len() && after@ == (
                    ManifestView { obsolete: remaining, ..before }),
                    None => remaining.len() == before.obsolete.len(),
                }
            }),
    {
        let ghost before = self.manifest@;
        let mut manifest = self.manifest;
        let remaining = remaining_sets(&manifest.obsolete, failed);
        if remaining.len() == manifest.obsolete.len() {
            return None;
        }
        manifest.obsolete = remaining;
        assert(manifest@ =~= (ManifestView {
            obsolete: failed_sets(before.obsolete, failed@),
            ..before
        }));
        Some(manifest)
    }
}

/// The accounts of writes.
pub open spec fn write_accounts(list: Seq<WriteView>) -> Seq<Seq<char>> {
    list.map_values(|write: WriteView| write.account)
}

/// The secret under an account, none without a manifest, or the message on why
/// it cannot be had. The chunks are those that were read for the manifest.
pub open spec fn loaded_secret(
    account: Seq<char>,
    manifest: Option<ManifestView>,
    chunks: Seq<Option<Seq<u8>>>,
) -> Result<Option<Seq<u8>>, Seq<char>> {
    if account.len() == 0 {
        Err("profile has no credential-store identifier"@)
    } else {
        match manifest {
            None => Ok(None),
            Some(found) => match manifest_error(found) {
                Some(reason) => Err(format_message(reason)),
                None => match assembled(found, chunks) {
                    Ok(secret) => Ok(Some(secret)),
                    Err(reason) => Err(format_message(reason)),
                },
            },
        }
    }
}

/// Saved credentials by account.
pub struct CredentialStore;

impl CredentialStore {
    /// The secret under an account: none without a manifest. `chunks` are those
    /// that were read for the manifest, in order.
    pub fn load(
        account: &str,
        manifest: Option<&CredentialManifest>,
        chunks: &Vec<Option<Vec<u8>>>,
    ) -> (result: Result<Option<Vec<u8>>, Error>)
        ensures
            ({
                let expected = loaded_secret(
                    account@,
                    manifest_view(manifest),
                    chunk_views(chunks@),
                );
                match result {
                    Ok(Some(bytes)) => expected == Ok::<Option<Seq<u8>>, Seq<char>>(Some(bytes@)),
                    Ok(None) => expected == Ok::<Option<Seq<u8>>, Seq<char>>(None),
                    Err(error) => expected matches Err(message) && is_store_error(error, message),
                }
            }),
    {
        match validate_account(account) {
            Ok(_) => {},
            Err(error) => {
                return Err(error);
            },
        }
        match manifest {
            Some(found) => {
                match validate_manifest(found) {
                    Ok(_) => {},
                    Err(error) => {
                        return Err(error);
                    },
                }
                match assemble(found, chunks) {
                    Ok(bytes) => Ok(Some(bytes)),
                    Err(error) => Err(error),
                }
            },
            None => Ok(None),
        }
    }

    /// Plans what is written to save a secret under a new generation.
    pub fn save(
        account: &str,
        secret: &[u8],
        previous: Option<&CredentialManifest>,
        remaining: &Vec<ChunkSet>,
    ) -> (result: Result<SavePlan, Error>)
        ensures
            ({
                let obsolete = obsolete_after(manifest_view(previous), sets(remaining@));
                match result {
                    Ok(plan) => {
                        let generation = plan.manifest@.generation;
                        &&& save_error(account@, secret@.len() as int, obsolete) is None
                        &&& valid_generation(generation)
                        &&& is_random_hex(generation)
                        &&& writes(plan.chunks@) == chunk_writes(account@, generation, secret@)
                        &&& plan.manifest@ == manifest_of(generation, secret@, obsolete)
                    },
                    Err(error) => match save_error(account@, secret@.len() as int, obsolete) {
                        Some(message) => is_store_error(error, message),
                        None => bytes_drawn(None) && is_store_error(
                            error,
                            "system randomness is unavailable for credential storage"@,
                        ),
                    },
                }
            }),
    {
        let obsolete = match check_save(account, secret, previous, remaining) {
            Ok(obsolete) => obsolete,
            Err(error) => {
                return Err(error);
            },
        };
        match new_generation() {
            Ok(generation) => Ok(filled_plan(account, secret, obsolete, generation)),
            Err(error) => Err(error),
        }
    }

    /// The sets whose chunks go when credentials are deleted: all of them.
    pub fn delete(account: &str, manifest: Option<&CredentialManifest>) -> (result: Result<
        Option<Vec<ChunkSet>>,
        Error,
    >)
        ensures
            match result {
                Ok(Some(list)) => account@.len() > 0 && manifest is Some && manifest_error(
                    manifest->Some_0@,
                ) is None && sets(list@) == manifest->Some_0@.obsolete.push(
                    manifest->Some_0@.current(),
                ),
                Ok(None) => account@.len() > 0 && manifest is None,
                Err(error) => if account@.len() == 0 {
                    is_store_error(error, "profile has no credential-store identifier"@)
                } else {
                    manifest is Some && (manifest_error(manifest->Some_0@) matches Some(reason)
                        && is_store_error(error, format_message(reason)))
                },
            },
    {
        match validate_account(account) {
            Ok(_) => {},
            Err(error) => {
                return Err(error);
            },
        }
        match manifest {
            Some(found) => {
                match validate_manifest(found) {
                    Ok(_) => {},
                    Err(error) => {
                        return Err(error);
                    },
                }
                let mut list = copy_sets(&found.obsolete);
                let ghost before = sets(list@);
                list.push(found.current.as_chunk_set());
                assert(sets(list@) =~= before.push(found@.current()));
                Ok(Some(list))
            },
            None => Ok(None),
        }
    }
}

/// Whether the manifest can go, once the removal of each set was tried: not
/// while chunks are left that it names.
pub fn check_removed(failed: &Vec<bool>) -> (result: Result<(), Error>)
    ensures
        match result {
            Ok(_) => !failed@.contains(true),
            Err(error) => failed@.contains(true) && is_store_error(
                error,
                "delete saved-authentication chunks from the operating-system credential store"@,
            ),
        },
{
    let mut i: usize = 0;
    while i < failed.len()
        invariant
            i <= failed@.len(),
            forall|k: int| 0 <= k < i ==> !failed@[k],
        decreases failed@.len() - i,
    {
        if failed[i] {
            assert(failed@[i as int]);
            return Err(
                store_error(
                    "delete saved-authentication chunks from the operating-system credential store",
                ),
            );
        }
        i += 1;
    }
    Ok(())
}

/// What a store holds after writes, one after the other.
pub open spec fn stored_after(store: Map<Seq<char>, Seq<u8>>, list: Seq<WriteView>) -> Map<
    Seq<char>,
    Seq<u8>,
>
    decreases list.len(),
{
    if list.len() == 0 {
        store
    } else {
        stored_after(store, list.drop_last()).insert(list.last().account, list.last().secret)
    }
}

/// What a store holds after accounts were deleted.
pub open spec fn removed_after(store: Map<Seq<char>, Seq<u8>>, accounts: Seq<Seq<char>>) -> Map<
    Seq<char>,
    Seq<u8>,
>
    decreases accounts.len(),
{
    if accounts.len() == 0 {
        store
    } else {
        removed_after(store, accounts.drop_last()).remove(accounts.last())
    }
}

/// What reading the chunks of a set from a store gives.
pub open spec fn chunks_read(
    store: Map<Seq<char>, Seq<u8>>,
    account: Seq<char>,
    set: ChunkSetView,
) -> Seq<Option<Seq<u8>>> {
    Seq::new(
        set.chunks as nat,
        |i: int|
            {
                let name = chunk_name(account, set.generation, i as u32);
                if store.dom().contains(name) {
                    Some(store[name])
                } else {
                    None
                }
            },
    )
}

/// Chunks of different generations or indices have different accounts.
pub proof fn lemma_chunk_names_differ(
    account: Seq<char>,
    first: Seq<char>,
    i: u32,
    second: Seq<char>,
    j: u32,
)
    requires
        first.len() == second.len(),
        chunk_name(account, first, i) == chunk_name(account, second, j),
    ensures
        first == second,
        i == j,
{
    let left = chunk_name(account, first, i);
    let right = chunk_name(account, second, j);
    let start = account.len() + ".chunk."@.len();
    let middle = start + first.len();
    let tail = middle + "."@.len();
    assert(left.subrange(start as int, middle as int) =~= first);
    assert(right.subrange(start as int, middle as int) =~= second);
    let left_digits = hex_text(be32_bytes(i));
    let right_digits = hex_text(be32_bytes(j));
    assert(left.skip(tail as int) =~= left_digits);
    assert(right.skip(tail as int) =~= right_digits);
    law_hex_round_trip(be32_bytes(i));
    law_hex_round_trip(be32_bytes(j));
    assert(be32_bytes(i) == be32_bytes(j));
    law_word_round_trip(i);
    law_word_round_trip(j);
}

/// No chunk has the account of the manifest.
pub proof fn lemma_chunk_is_no_manifest(account: Seq<char>, generation: Seq<char>, i: u32)
    ensures
        chunk_name(account, generation, i) != account,
{
    reveal_strlit(".chunk.");
    assert(chunk_name(account, generation, i).len() > account.len());
}

proof fn lemma_other_accounts_stay(
    store: Map<Seq<char>, Seq<u8>>,
    list: Seq<WriteView>,
    other: Seq<char>,
)
    requires
        forall|k: int| 0 <= k < list.len() ==> (#[trigger] list[k]).account != other,
    ensures
        stored_after(store, list).dom().contains(other) == store.dom().contains(other),
        store.dom().contains(other) ==> stored_after(store, list)[other] == store[other],
    decreases list.len(),
{
    if list.len() > 0 {
        assert forall|k: int| 0 <= k < list.drop_last().len() implies (
        #[trigger] list.drop_last()[k]).account != other by {
            assert(list.drop_last()[k] == list[k]);
        }
        lemma_other_accounts_stay(store, list.drop_last(), other);
        assert(list[list.len() - 1].account != other);
    }
}

proof fn lemma_write_stays(store: Map<Seq<char>, Seq<u8>>, list: Seq<WriteView>, i: int)
    requires
        0 <= i < list.len(),
        forall|a: int, b: int|
            0 <= a < b < list.len() ==> (#[trigger] list[a]).account != (
            #[trigger] list[b]).account,
    ensures
        stored_after(store, list).dom().contains(list[i].account),
        stored_after(store, list)[list[i].account] == list[i].secret,
    decreases list.len(),
{
    if i < list.len() - 1 {
        let head = list.drop_last();
        assert forall|a: int, b: int| 0 <= a < b < head.len() implies (
        #[trigger] head[a]).account != (#[trigger] head[b]).account by {
            assert(head[a] == list[a] && head[b] == list[b]);
        }
        lemma_write_stays(store, head, i);
        assert(head[i] == list[i]);
        assert(list[i].account != list[list.len() - 1].account);
    }
}

proof fn lemma_chunks_join(secret: Seq<u8>, chunks: Seq<Option<Seq<u8>>>, count: nat)
    requires
        count <= chunk_count(secret.len() as int),
        chunks.len() == chunk_count(secret.len() as int),
        forall|i: int| 0 <= i < chunks.len() ==> #[trigger] chunks[i] == Some(chunk_at(secret, i)),
    ensures
        joined_chunks(chunks, count) == Ok::<Seq<u8>, Seq<char>>(
            secret.take(
                if count * SECRET_CHUNK_SIZE < secret.len() {
                    count * SECRET_CHUNK_SIZE
                } else {
                    secret.len() as int
                },
            ),
        ),
    decreases count,
{
    if count == 0 {
        assert(secret.take(0) =~= Seq::<u8>::empty());
    } else {
        let index = (count - 1) as nat;
        lemma_chunks_join(secret, chunks, index);
        let start = index * SECRET_CHUNK_SIZE;
        assert(start < secret.len());
        let end = if count * SECRET_CHUNK_SIZE < secret.len() {
            count * SECRET_CHUNK_SIZE
        } else {
            secret.len() as int
        };
        assert(chunks[index as int] == Some(chunk_at(secret, index as int)));
        assert(secret.take(start as int) + chunk_at(secret, index as int) =~= secret.take(end));
    }
}

/// A secret that was written is read back, whatever the store held before.
pub proof fn law_saved_secret_reads_back(
    store: Map<Seq<char>, Seq<u8>>,
    account: Seq<char>,
    generation: Seq<char>,
    secret: Seq<u8>,
    obsolete: Seq<ChunkSetView>,
)
    requires
        save_error(account, secret.len() as int, obsolete) is None,
    ensures
        ({
            let manifest = manifest_of(generation, secret, obsolete);
            let after = stored_after(store, chunk_writes(account, generation, secret));
            assembled(manifest, chunks_read(after, account, manifest.current())) == Ok::<
                Seq<u8>,
                Seq<char>,
            >(secret)
        }),
{
    let manifest = manifest_of(generation, secret, obsolete);
    let list = chunk_writes(account, generation, secret);
    let after = stored_after(store, list);
    let read = chunks_read(after, account, manifest.current());
    let count = chunk_count(secret.len() as int);
    assert(0 < count <= MAX_CREDENTIAL_CHUNKS);
    assert(manifest.chunks == count);
    assert forall|a: int, b: int| 0 <= a < b < list.len() implies (#[trigger] list[a]).account != (
    #[trigger] list[b]).account by {
        if list[a].account == list[b].account {
            lemma_chunk_names_differ(account, generation, a as u32, generation, b as u32);
        }
    }
    assert forall|i: int| 0 <= i < read.len() implies #[trigger] read[i] == Some(
        chunk_at(secret, i),
    ) by {
        lemma_write_stays(store, list, i);
        assert(list[i].account == chunk_name(account, generation, i as u32));
        assert(list[i].secret == chunk_at(secret, i));
    }
    lemma_chunks_join(secret, read, count as nat);
    assert(secret.take(secret.len() as int) =~= secret);
    assert(count * SECRET_CHUNK_SIZE >= secret.len());
}

/// The manifest of a secret can be used, where its generation is new.
pub proof fn law_saved_manifest_is_valid(
    account: Seq<char>,
    generation: Seq<char>,
    secret: Seq<u8>,
    obsolete: Seq<ChunkSetView>,
)
    requires
        save_error(account, secret.len() as int, obsolete) is None,
        valid_generation(generation),
        obsolete_error(generation, obsolete) is None,
    ensures
        manifest_error(manifest_of(generation, secret, obsolete)) is None,
{
}

proof fn lemma_removed(
    store: Map<Seq<char>, Seq<u8>>,
    accounts: Seq<Seq<char>>,
    other: Seq<char>,
)
    ensures
        removed_after(store, accounts).dom().contains(other) == (store.dom().contains(other)
            && !accounts.contains(other)),
        store.dom().contains(other) && !accounts.contains(other) ==> removed_after(
            store,
            accounts,
        )[other] == store[other],
    decreases accounts.len(),
{
    if accounts.len() > 0 {
        let head = accounts.drop_last();
        lemma_removed(store, head, other);
        if head.contains(other) {
            let k = choose|k: int| 0 <= k < head.len() && head[k] == other;
            assert(accounts[k] == other);
        }
        if accounts.contains(other) && accounts.last() != other {
            let k = choose|k: int| 0 <= k < accounts.len() && accounts[k] == other;
            assert(head[k] == other);
        }
        if accounts.last() == other {
            assert(accounts[accounts.len() - 1] == other);
        }
    }
}

/// Whether every name of a list is one of some others.
pub open spec fn among(names: Seq<Seq<char>>, others: Seq<Seq<char>>) -> bool {
    forall|k: int| 0 <= k < names.len() ==> others.contains(#[trigger] names[k])
}

proof fn lemma_among_writes(
    account: Seq<char>,
    generation: Seq<char>,
    secret: Seq<u8>,
    written: int,
    names: Seq<Seq<char>>,
    name: Seq<char>,
) -> (k: int)
    requires
        0 <= written <= chunk_count(secret.len() as int),
        among(names, write_accounts(chunk_writes(account, generation, secret)).take(written)),
        names.contains(name),
    ensures
        0 <= k < written,
        chunk_writes(account, generation, secret).take(written)[k].account == name,
{
    let others = write_accounts(chunk_writes(account, generation, secret)).take(written);
    let i = choose|i: int| 0 <= i < names.len() && names[i] == name;
    assert(others.contains(names[i]));
    choose|k: int| 0 <= k < others.len() && others[k] == name
}

/// Writing chunks of a new generation and deleting some of them again changes
/// nothing that an old manifest names: not the manifest's account, nor a chunk of
/// another generation.
pub proof fn law_new_chunks_leave_the_old_ones(
    store: Map<Seq<char>, Seq<u8>>,
    account: Seq<char>,
    generation: Seq<char>,
    secret: Seq<u8>,
    written: int,
    accounts: Seq<Seq<char>>,
    set: ChunkSetView,
)
    requires
        0 <= written <= chunk_count(secret.len() as int) <= MAX_CREDENTIAL_CHUNKS,
        among(accounts, write_accounts(chunk_writes(account, generation, secret)).take(written)),
        set.generation.len() == generation.len(),
        set.generation != generation,
    ensures
        ({
            let list = chunk_writes(account, generation, secret);
            let after = removed_after(stored_after(store, list.take(written)), accounts);
            &&& after.dom().contains(account) == store.dom().contains(account)
            &&& store.dom().contains(account) ==> after[account] == store[account]
            &&& chunks_read(after, account, set) == chunks_read(store, account, set)
        }),
{
    let list = chunk_writes(account, generation, secret);
    let head = list.take(written);
    let between = stored_after(store, head);
    let after = removed_after(between, accounts);
    assert forall|k: int| 0 <= k < head.len() implies (#[trigger] head[k]).account != account by {
        lemma_chunk_is_no_manifest(account, generation, k as u32);
    }
    lemma_other_accounts_stay(store, head, account);
    lemma_removed(between, accounts, account);
    assert(!accounts.contains(account)) by {
        if accounts.contains(account) {
            let k = lemma_among_writes(account, generation, secret, written, accounts, account);
            assert(head[k].account != account);
        }
    }
    assert forall|i: int| 0 <= i < set.chunks implies #[trigger] chunks_read(
        after,
        account,
        set,
    )[i] == chunks_read(store, account, set)[i] by {
        let name = chunk_name(account, set.generation, i as u32);
        assert forall|k: int| 0 <= k < head.len() implies (#[trigger] head[k]).account != name by {
            if head[k].account == name {
                lemma_chunk_names_differ(account, generation, k as u32, set.generation, i as u32);
            }
        }
        lemma_other_accounts_stay(store, head, name);
        lemma_removed(between, accounts, name);
        if accounts.contains(name) {
            let k = lemma_among_writes(account, generation, secret, written, accounts, name);
            assert(head[k].account != name);
        }
    }
    assert(chunks_read(after, account, set) =~= chunks_read(store, account, set));
}

/// Deleting the chunks of a set leaves none of them.
pub proof fn law_deleted_chunks_are_gone(
    store: Map<Seq<char>, Seq<u8>>,
    account: Seq<char>,
    set: ChunkSetView,
    index: int,
)
    requires
        0 <= index < set.chunks,
    ensures
        chunks_read(
            removed_after(store, chunk_names(account, set)),
            account,
            set,
        )[index] is None,
{
    let names = chunk_names(account, set);
    let name = chunk_name(account, set.generation, index as u32);
    assert(names[index] == name);
    assert(names.contains(name));
    lemma_removed(store, names, name);
}

/// How manifests and credentials are written down as bytes and read again. What
/// cannot be read comes with the reason in words.
pub struct Notation {
    pub write_manifest: spec_fn(ManifestView) -> Seq<u8>,
    pub read_manifest: spec_fn(Seq<u8>) -> Result<ManifestView, Seq<char>>,
    pub write_credential: spec_fn(u32, CredentialView) -> Seq<u8>,
    pub read_credential: spec_fn(Seq<u8>) -> Result<(u32, CredentialView), Seq<char>>,
}

impl Notation {
    /// What was written is read back.
    pub open spec fn reads_back(self) -> bool {
        &&& forall|manifest: ManifestView|
            (self.read_manifest)(#[trigger] (self.write_manifest)(manifest)) == Ok::<
                ManifestView,
                Seq<char>,
            >(manifest)
        &&& forall|version: u32, credential: CredentialView|
            (self.read_credential)(#[trigger] (self.write_credential)(version, credential)) == Ok::<
                (u32, CredentialView),
                Seq<char>,
            >((version, credential))
    }
}

/// The credential that a store holds under an account, none where nothing stands
/// there, or the message on why it cannot be had.
pub open spec fn credential_loaded(
    store: Map<Seq<char>, Seq<u8>>,
    account: Seq<char>,
    notation: Notation,
) -> Result<Option<CredentialView>, Seq<char>> {
    if account.len() == 0 {
        Err("profile has no credential-store identifier"@)
    } else if !store.dom().contains(account) {
        Ok(None)
    } else {
        match (notation.read_manifest)(store[account]) {
            Err(reason) => Err(
                format_message("saved authentication metadata is not valid JSON: "@ + reason),
            ),
            Ok(manifest) => match loaded_secret(
                account,
                Some(manifest),
                chunks_read(store, account, manifest.current()),
            ) {
                Err(message) => Err(message),
                Ok(None) => Ok(None),
                Ok(Some(secret)) => match (notation.read_credential)(secret) {
                    Err(reason) => Err(
                        format_message("saved authentication is not valid JSON: "@ + reason),
                    ),
                    Ok((version, credential)) => if version == CREDENTIAL_VERSION {
                        Ok(Some(credential))
                    } else {
                        Err(
                            format_message(
                                "unsupported saved authentication version "@ + decimal(
                                    version as nat,
                                ) + "; expected 1"@,
                            ),
                        )
                    },
                },
            },
        }
    }
}

/// The manifest that a save finds: none where nothing stands, or nothing usable.
pub open spec fn replaced_manifest(
    store: Map<Seq<char>, Seq<u8>>,
    account: Seq<char>,
    notation: Notation,
) -> Option<ManifestView> {
    if !store.dom().contains(account) {
        None
    } else {
        match (notation.read_manifest)(store[account]) {
            Ok(manifest) => if manifest_error(manifest) is None {
                Some(manifest)
            } else {
                None
            },
            Err(_) => None,
        }
    }
}

/// Whether a name is the account of a chunk of one of some sets.
pub open spec fn is_chunk_of(name: Seq<char>, account: Seq<char>, list: Seq<ChunkSetView>) -> bool {
    exists|j: int, i: u32|
        0 <= j < list.len() && name == #[trigger] chunk_name(account, list[j].generation, i)
}

/// Whether only chunks of some sets are named.
pub open spec fn chunks_only(
    names: Seq<Seq<char>>,
    account: Seq<char>,
    list: Seq<ChunkSetView>,
) -> bool {
    forall|k: int| 0 <= k < names.len() ==> is_chunk_of(#[trigger] names[k], account, list)
}

proof fn lemma_obsolete_entry(generation: Seq<char>, list: Seq<ChunkSetView>, j: int)
    requires
        obsolete_error(generation, list) is None,
        0 <= j < list.len(),
    ensures
        list[j].generation != generation,
        valid_generation(list[j].generation),
    decreases list.len(),
{
    if j < list.len() - 1 {
        lemma_obsolete_entry(generation, list.drop_last(), j);
        assert(list.drop_last()[j] == list[j]);
    }
}

/// Deleting chunks of obsolete sets leaves the manifest and the chunks that count.
proof fn lemma_cleanup_keeps(
    store: Map<Seq<char>, Seq<u8>>,
    account: Seq<char>,
    names: Seq<Seq<char>>,
    list: Seq<ChunkSetView>,
    set: ChunkSetView,
)
    requires
        chunks_only(names, account, list),
        valid_generation(set.generation),
        obsolete_error(set.generation, list) is None,
    ensures
        ({
            let after = removed_after(store, names);
            &&& after.dom().contains(account) == store.dom().contains(account)
            &&& store.dom().contains(account) ==> after[account] == store[account]
            &&& chunks_read(after, account, set) == chunks_read(store, account, set)
        }),
{
    let after = removed_after(store, names);
    lemma_removed(store, names, account);
    if names.contains(account) {
        let k = choose|k: int| 0 <= k < names.len() && names[k] == account;
        assert(is_chunk_of(names[k], account, list));
        let (j, i) = choose|j: int, i: u32|
            0 <= j < list.len() && account == #[trigger] chunk_name(
                account,
                list[j].generation,
                i,
            );
        lemma_chunk_is_no_manifest(account, list[j].generation, i);
    }
    assert forall|n: int| 0 <= n < set.chunks implies #[trigger] chunks_read(
        after,
        account,
        set,
    )[n] == chunks_read(store, account, set)[n] by {
        let name = chunk_name(account, set.generation, n as u32);
        lemma_removed(store, names, name);
        if names.contains(name) {
            let k = choose|k: int| 0 <= k < names.len() && names[k] == name;
            assert(is_chunk_of(names[k], account, list));
            let (j, i) = choose|j: int, i: u32|
                0 <= j < list.len() && name == #[trigger] chunk_name(
                    account,
                    list[j].generation,
                    i,
                );
            lemma_obsolete_entry(set.generation, list, j);
            lemma_chunk_names_differ(account, set.generation, n as u32, list[j].generation, i);
        }
    }
    assert(chunks_read(after, account, set) =~= chunks_read(store, account, set));
}

proof fn lemma_failed_from_list(list: Seq<ChunkSetView>, failed: Seq<bool>, generation: Seq<char>)
    requires
        !has_generation(list, generation),
    ensures
        failed_sets(list, failed).len() <= list.len(),
        !has_generation(failed_sets(list, failed), generation),
    decreases list.len(),
{
    if list.len() > 0 {
        let head = list.drop_last();
        assert(!has_generation(head, generation)) by {
            if has_generation(head, generation) {
                let i = choose|i: int|
                    0 <= i < head.len() && #[trigger] head[i].generation == generation;
                assert(list[i].generation == generation);
            }
        }
        lemma_failed_from_list(head, failed, generation);
        let before = failed_sets(head, failed);
        let after = failed_sets(list, failed);
        assert(list[list.len() - 1].generation != generation);
        if has_generation(after, generation) {
            let i = choose|i: int|
                0 <= i < after.len() && #[trigger] after[i].generation == generation;
            if i < before.len() {
                assert(before[i].generation == generation);
            }
        }
    }
}

/// What could not be removed of sets that stand beside a generation can still
/// stand beside it, and beside any other that none of them has.
proof fn lemma_failed_sets_fit(
    generation: Seq<char>,
    other: Seq<char>,
    list: Seq<ChunkSetView>,
    failed: Seq<bool>,
)
    requires
        obsolete_error(generation, list) is None,
        !has_generation(list, other),
    ensures
        obsolete_error(other, failed_sets(list, failed)) is None,
        failed_sets(list, failed).len() <= list.len(),
    decreases list.len(),
{
    if list.len() > 0 {
        let head = list.drop_last();
        assert(!has_generation(head, other)) by {
            if has_generation(head, other) {
                let i = choose|i: int|
                    0 <= i < head.len() && #[trigger] head[i].generation == other;
                assert(list[i].generation == other);
            }
        }
        lemma_failed_sets_fit(generation, other, head, failed);
        lemma_failed_from_list(head, failed, list.last().generation);
        assert(list[list.len() - 1].generation != other);
        let before = failed_sets(head, failed);
        assert(before.push(list.last()).drop_last() =~= before);
    }
}

proof fn lemma_no_such_generation(generation: Seq<char>, list: Seq<ChunkSetView>)
    requires
        obsolete_error(generation, list) is None,
    ensures
        !has_generation(list, generation),
{
    if has_generation(list, generation) {
        let i = choose|i: int| 0 <= i < list.len() && #[trigger] list[i].generation == generation;
        lemma_obsolete_entry(generation, list, i);
    }
}

/// Whether a generation is new beside those that a manifest names.
pub open spec fn is_fresh(generation: Seq<char>, previous: Option<ManifestView>) -> bool {
    previous matches Some(manifest) ==> generation != manifest.generation && !has_generation(
        manifest.obsolete,
        generation,
    )
}

/// The sets that a save under a new generation makes obsolete, where the removal
/// of some earlier ones failed.
pub open spec fn obsolete_beside(previous: Option<ManifestView>, failed: Seq<bool>) -> Seq<
    ChunkSetView,
> {
    obsolete_after(
        previous,
        match previous {
            Some(manifest) => failed_sets(manifest.obsolete, failed),
            None => Seq::empty(),
        },
    )
}

/// The sets that a save makes obsolete can stand beside its generation.
proof fn lemma_obsolete_beside_fits(
    generation: Seq<char>,
    previous: Option<ManifestView>,
    failed: Seq<bool>,
)
    requires
        previous matches Some(manifest) ==> manifest_error(manifest) is None,
        is_fresh(generation, previous),
    ensures
        obsolete_error(generation, obsolete_beside(previous, failed)) is None,
{
    if let Some(manifest) = previous {
        let remaining = failed_sets(manifest.obsolete, failed);
        lemma_failed_sets_fit(manifest.generation, generation, manifest.obsolete, failed);
        lemma_no_such_generation(manifest.generation, manifest.obsolete);
        lemma_failed_from_list(manifest.obsolete, failed, manifest.generation);
        assert(remaining.push(manifest.current()).drop_last() =~= remaining);
    }
}

/// What a store holds once a credential was saved: its chunks and a manifest that
/// names them, without the chunks that were deleted after that, and with the
/// manifest written anew where it then names fewer sets.
pub open spec fn store_after_save(
    store: Map<Seq<char>, Seq<u8>>,
    account: Seq<char>,
    notation: Notation,
    secret: Seq<u8>,
    manifest: ManifestView,
    deleted: Seq<Seq<char>>,
    settled: Option<ManifestView>,
) -> Map<Seq<char>, Seq<u8>> {
    let written = stored_after(store, chunk_writes(account, manifest.generation, secret)).insert(
        account,
        (notation.write_manifest)(manifest),
    );
    let cleaned = removed_after(written, deleted);
    match settled {
        Some(last) => cleaned.insert(account, (notation.write_manifest)(last)),
        None => cleaned,
    }
}

/// A credential that was saved is loaded again, field for field, however long it
/// is, whatever the store held before, and whichever obsolete chunks could be
/// deleted; and no chunk is larger than a store takes. Left out are generations
/// that are in use already.
pub proof fn law_saved_credential_loads(
    store: Map<Seq<char>, Seq<u8>>,
    account: Seq<char>,
    notation: Notation,
    credential: CredentialView,
    generation: Seq<char>,
    previous: Option<ManifestView>,
    failed: Seq<bool>,
    deleted: Seq<Seq<char>>,
    later_failed: Seq<bool>,
    rewritten: bool,
)
    requires
        notation.reads_back(),
        valid_generation(generation),
        previous matches Some(manifest) ==> manifest_error(manifest) is None,
        is_fresh(generation, previous),
        save_error(
            account,
            (notation.write_credential)(CREDENTIAL_VERSION, credential).len() as int,
            obsolete_beside(previous, failed),
        ) is None,
        chunks_only(deleted, account, obsolete_beside(previous, failed)),
    ensures
        ({
            let secret = (notation.write_credential)(CREDENTIAL_VERSION, credential);
            let obsolete = obsolete_beside(previous, failed);
            let manifest = manifest_of(generation, secret, obsolete);
            let settled = if rewritten {
                Some(ManifestView { obsolete: failed_sets(obsolete, later_failed), ..manifest })
            } else {
                None
            };
            let after = store_after_save(
                store,
                account,
                notation,
                secret,
                manifest,
                deleted,
                settled,
            );
            &&& credential_loaded(after, account, notation) == Ok::<
                Option<CredentialView>,
                Seq<char>,
            >(Some(credential))
            &&& forall|i: int|
                0 <= i < chunk_writes(account, generation, secret).len() ==> (
                #[trigger] chunk_writes(account, generation, secret)[i]).secret.len()
                    <= SECRET_CHUNK_SIZE
        }),
{
    let secret = (notation.write_credential)(CREDENTIAL_VERSION, credential);
    let obsolete = obsolete_beside(previous, failed);
    let manifest = manifest_of(generation, secret, obsolete);
    let last = if rewritten {
        ManifestView { obsolete: failed_sets(obsolete, later_failed), ..manifest }
    } else {
        manifest
    };
    let settled = if rewritten {
        Some(last)
    } else {
        None
    };
    let list = chunk_writes(account, generation, secret);
    let chunks = stored_after(store, list);
    let written = chunks.insert(account, (notation.write_manifest)(manifest));
    let cleaned = removed_after(written, deleted);
    let after = store_after_save(store, account, notation, secret, manifest, deleted, settled);
    let set = manifest.current();
    lemma_obsolete_beside_fits(generation, previous, failed);
    law_saved_manifest_is_valid(account, generation, secret, obsolete);
    lemma_no_such_generation(generation, obsolete);
    lemma_failed_sets_fit(generation, generation, obsolete, later_failed);
    lemma_cleanup_keeps(written, account, deleted, obsolete, set);
    law_saved_secret_reads_back(store, account, generation, secret, obsolete);
    assert(manifest_error(last) is None);
    assert(after.dom().contains(account));
    assert(after[account] == (notation.write_manifest)(last));
    assert((notation.read_manifest)(after[account]) == Ok::<ManifestView, Seq<char>>(last));
    assert(last.current() == set);
    assert forall|n: int| 0 <= n < set.chunks implies #[trigger] chunks_read(
        after,
        account,
        set,
    )[n] == chunks_read(chunks, account, set)[n] by {
        lemma_chunk_is_no_manifest(account, generation, n as u32);
        assert(chunks_read(after, account, set)[n] == chunks_read(cleaned, account, set)[n]);
        assert(chunks_read(written, account, set)[n] == chunks_read(chunks, account, set)[n]);
    }
    assert(chunks_read(after, account, set) =~= chunks_read(chunks, account, set));
    assert(assembled(last, chunks_read(after, account, set)) == Ok::<Seq<u8>, Seq<char>>(secret));
}

/// A save that fails, whether before a chunk was written, at one of the chunks or
/// at the manifest, leaves what is loaded as it was: whichever chunks of sets
/// that were obsolete already could be deleted before it, and whichever of the
/// new chunks after it. A write that fails leaves its entry as it was. Left out is
/// the generation that is in use.
pub proof fn law_failed_save_changes_nothing_loaded(
    store: Map<Seq<char>, Seq<u8>>,
    account: Seq<char>,
    notation: Notation,
    generation: Seq<char>,
    secret: Seq<u8>,
    deleted: Seq<Seq<char>>,
    written: int,
    cleaned: Seq<Seq<char>>,
)
    requires
        valid_generation(generation),
        0 <= written <= chunk_count(secret.len() as int) <= MAX_CREDENTIAL_CHUNKS,
        match replaced_manifest(store, account, notation) {
            Some(manifest) => generation != manifest.generation && chunks_only(
                deleted,
                account,
                manifest.obsolete,
            ),
            None => deleted.len() == 0,
        },
        among(cleaned, write_accounts(chunk_writes(account, generation, secret)).take(written)),
    ensures
        ({
            let list = chunk_writes(account, generation, secret);
            let after = removed_after(
                stored_after(removed_after(store, deleted), list.take(written)),
                cleaned,
            );
            credential_loaded(after, account, notation) == credential_loaded(
                store,
                account,
                notation,
            )
        }),
{
    let list = chunk_writes(account, generation, secret);
    let between = removed_after(store, deleted);
    let after = removed_after(stored_after(between, list.take(written)), cleaned);
    match replaced_manifest(store, account, notation) {
        Some(manifest) => {
            let set = manifest.current();
            lemma_cleanup_keeps(store, account, deleted, manifest.obsolete, set);
            law_new_chunks_leave_the_old_ones(
                between,
                account,
                generation,
                secret,
                written,
                cleaned,
                set,
            );
        },
        None => {
            assert(between == store);
            let other = generation.update(
                0,
                if generation[0] == 'a' {
                    'b'
                } else {
                    'a'
                },
            );
            assert(other[0] != generation[0]);
            law_new_chunks_leave_the_old_ones(
                between,
                account,
                generation,
                secret,
                written,
                cleaned,
                ChunkSetView { generation: other, chunks: 0 },
            );
        },
    }
}

/// Under an account that nothing was ever written to, nothing is loaded; and
/// nothing is ever loaded without an account.
pub proof fn law_unsaved_account_loads_nothing(
    store: Map<Seq<char>, Seq<u8>>,
    account: Seq<char>,
    notation: Notation,
)
    requires
        account.len() == 0 || !store.dom().contains(account),
    ensures
        credential_loaded(store, account, notation) == if account.len() == 0 {
            Err::<Option<CredentialView>, Seq<char>>("profile has no credential-store identifier"@)
        } else {
            Ok(None)
        },
{
}

/// A set of chunks is named by 32 lower hexadecimal digits and has one to 4096
/// chunks.
pub proof fn law_chunk_sets(generation: &str, chunks: u32, result: Result<(), Error>)
    requires
        call_ensures(validate_chunk_set, (generation, chunks), result),
    ensures
        result is Ok <==> 1 <= chunks <= 4_096 && generation@.len() == 32 && (forall|i: int|
            0 <= i < 32 ==> {
                let code = #[trigger] generation@[i] as u32;
                48 <= code <= 57 || 97 <= code <= 102
            }),
{
    if valid_generation(generation@) {
        assert forall|i: int| 0 <= i < 32 implies {
            let code = #[trigger] generation@[i] as u32;
            48 <= code <= 57 || 97 <= code <= 102
        } by {
            assert(is_lower_hex(generation@[i]));
        }
    }
}

/// The account of a chunk is the profile's, with the set's name and the chunk's
/// number in eight digits behind it.
pub proof fn law_chunk_account(account: &str, generation: &str, index: u32, name: String)
    requires
        call_ensures(chunk_account, (account, generation, index), name),
    ensures
        name@ == account@ + ".chunk."@ + generation@ + "."@ + hex_text(
            seq![
                (index / 0x100_0000) as u8,
                (index / 0x1_0000 % 0x100) as u8,
                (index / 0x100 % 0x100) as u8,
                (index % 0x100) as u8,
            ],
        ),
{
}

proof fn lemma_obsolete_sets(generation: Seq<char>, list: Seq<ChunkSetView>)
    ensures
        obsolete_error(generation, list) is None <==> {
            &&& forall|i: int|
                0 <= i < list.len() ==> chunk_set_error(#[trigger] list[i]) is None
                    && list[i].generation != generation
            &&& forall|i: int, j: int|
                0 <= i < j < list.len() ==> (#[trigger] list[i]).generation != (
                #[trigger] list[j]).generation
        },
    decreases list.len(),
{
    if list.len() > 0 {
        let rest = list.drop_last();
        lemma_obsolete_sets(generation, rest);
        let n = list.len() - 1;
        assert(list.last() == list[n]);
        assert forall|i: int| 0 <= i < rest.len() implies rest[i] == list[i] by {}
        if obsolete_error(generation, list) is None {
            assert forall|i: int| 0 <= i < list.len() implies chunk_set_error(
                #[trigger] list[i],
            ) is None && list[i].generation != generation by {
                if i < rest.len() {
                    assert(rest[i] == list[i]);
                }
            }
            assert forall|i: int, j: int| 0 <= i < j < list.len() implies (
            #[trigger] list[i]).generation != (#[trigger] list[j]).generation by {
                assert(rest[i] == list[i]);
                if j < rest.len() {
                    assert(rest[j] == list[j]);
                } else {
                    assert(rest[i].generation == list[i].generation);
                }
            }
        }
        if (forall|i: int|
            0 <= i < list.len() ==> chunk_set_error(#[trigger] list[i]) is None
                && list[i].generation != generation) && (forall|i: int, j: int|
            0 <= i < j < list.len() ==> (#[trigger] list[i]).generation != (
            #[trigger] list[j]).generation) {
            assert forall|i: int| 0 <= i < rest.len() implies chunk_set_error(
                #[trigger] rest[i],
            ) is None && rest[i].generation != generation by {
                assert(rest[i] == list[i]);
            }
            assert forall|i: int, j: int| 0 <= i < j < rest.len() implies (
            #[trigger] rest[i]).generation != (#[trigger] rest[j]).generation by {
                assert(rest[i] == list[i] && rest[j] == list[j]);
            }
            if has_generation(rest, list.last().generation) {
                let i = choose|i: int|
                    0 <= i < rest.len() && #[trigger] rest[i].generation == list.last().generation;
                assert(list[i].generation != list[n].generation);
            }
        }
    }
}

/// A manifest is valid where its version is the first, its length is not zero and
/// fills its chunks of 2048 bytes but for the last, and at most sixteen sets are
/// left over, each valid and each under a name of its own.
pub proof fn law_valid_manifest(manifest: &CredentialManifest, result: Result<(), Error>)
    requires
        call_ensures(validate_manifest, (manifest,), result),
        manifest@.length <= usize::MAX,
    ensures
        result is Ok <==> {
            let m = manifest@;
            &&& m.version == 1
            &&& valid_generation(m.generation) && 1 <= m.chunks <= 4_096
            &&& 2_048 * (m.chunks - 1) < m.length <= 2_048 * m.chunks
            &&& m.obsolete.len() <= 16
            &&& forall|i: int|
                0 <= i < m.obsolete.len() ==> valid_generation(
                    (#[trigger] m.obsolete[i]).generation,
                ) && 1 <= m.obsolete[i].chunks <= 4_096 && m.obsolete[i].generation != m.generation
            &&& forall|i: int, j: int|
                0 <= i < j < m.obsolete.len() ==> (#[trigger] m.obsolete[i]).generation != (
                #[trigger] m.obsolete[j]).generation
        },
{
    let m = manifest@;
    lemma_obsolete_sets(m.generation, m.obsolete);
    if obsolete_error(m.generation, m.obsolete) is None {
        assert forall|i: int| 0 <= i < m.obsolete.len() implies valid_generation(
            (#[trigger] m.obsolete[i]).generation,
        ) && 1 <= m.obsolete[i].chunks <= 4_096 && m.obsolete[i].generation != m.generation by {
            assert(chunk_set_error(m.obsolete[i]) is None);
        }
    }
}

/// What is saved: the secret in pieces of 2048 bytes, in order, each under its own
/// account; and a manifest with the number of the pieces, the length and the digest
/// of the secret, and the sets that it replaces.
pub proof fn law_save_plan(
    account: &str,
    secret: &[u8],
    previous: Option<&CredentialManifest>,
    remaining: &Vec<ChunkSet>,
    generation: String,
    result: Result<SavePlan, Error>,
    i: int,
)
    requires
        call_ensures(plan_save, (account, secret, previous, remaining, generation), result),
    ensures
        result is Ok <==> {
            &&& account@.len() > 0
            &&& 0 < secret@.len() <= 8_388_608
            &&& previous is Some ==> remaining@.len() < 16
        },
        result matches Ok(plan) ==> {
            let m = plan.manifest@;
            let count = plan.chunks@.len();
            &&& m.version == 1 && m.generation == generation@
            &&& m.chunks == count && m.length == secret@.len() && m.sha256 == sha256_digest(secret@)
            &&& 2_048 * (count - 1) < secret@.len() <= 2_048 * count
            &&& previous is None ==> m.obsolete.len() == 0
            &&& previous is Some ==> m.obsolete == sets(remaining@).push(
                previous->Some_0@.current(),
            )
            &&& 0 <= i < count - 1 ==> plan.chunks@[i].secret@ == secret@.subrange(
                2_048 * i,
                2_048 * i + 2_048,
            )
            &&& plan.chunks@[count - 1].secret@ == secret@.skip(2_048 * (count - 1))
            &&& 0 <= i < count ==> plan.chunks@[i].account@ == account@ + ".chunk."@ + generation@
                + "."@ + hex_text(be32_bytes(i as u32))
        },
{
    let length = secret@.len() as int;
    let obsolete = obsolete_after(manifest_view(previous), sets(remaining@));
    assert(sets(remaining@).len() == remaining@.len());
    if result is Ok {
        let plan = result->Ok_0;
        let list = writes(plan.chunks@);
        assert(list.len() == plan.chunks@.len());
        let count = chunk_count(length);
        assert(list.len() == count);
        let last = count - 1;
        assert(list[last] == plan.chunks@[last]@);
        assert(chunk_at(secret@, last) =~= secret@.skip(2_048 * last));
        if 0 <= i < count {
            assert(list[i] == plan.chunks@[i]@);
        }
    }
}

/// What is loaded has the length and the digest of the manifest; a piece that is
/// missing or too large refuses it. Without a manifest nothing is saved.
pub proof fn law_loaded_secret(
    account: &str,
    manifest: Option<&CredentialManifest>,
    chunks: &Vec<Option<Vec<u8>>>,
    result: Result<Option<Vec<u8>>, Error>,
    i: int,
)
    requires
        call_ensures(CredentialStore::load, (account, manifest, chunks), result),
    ensures
        account@.len() == 0 ==> result is Err,
        account@.len() > 0 && manifest is None ==> result == Ok::<Option<Vec<u8>>, Error>(None),
        manifest is Some && 0 <= i < manifest->Some_0@.chunks && (i >= chunks@.len()
            || chunks@[i] is None || chunks@[i]->Some_0@.len() > 2_048) ==> result is Err,
        manifest is Some && manifest_error(manifest->Some_0@) is Some ==> result is Err,
        result matches Ok(Some(secret)) ==> manifest is Some && secret@.len()
            == manifest->Some_0@.length && sha256_digest(secret@) == manifest->Some_0@.sha256,
        (result matches Ok(Some(secret)) && manifest->Some_0@.chunks == 1) ==> chunks@.len() > 0
            && chunks@[0] is Some && result->Ok_0->Some_0@ == chunks@[0]->Some_0@,
{
    let views = chunk_views(chunks@);
    assert(views.len() == chunks@.len());
    if manifest is Some {
        let count = manifest->Some_0@.chunks as nat;
        if 0 <= i < count {
            if i < chunks@.len() {
                assert(views[i] == match chunks@[i] {
                    Some(bytes) => Some(bytes@),
                    None => None,
                });
            }
            if i >= chunks@.len() || chunks@[i] is None || chunks@[i]->Some_0@.len() > 2_048 {
                assert(joined_chunks(views, (i + 1) as nat) is Err);
                lemma_join_error_stays(views, (i + 1) as nat, count);
            }
        }
        if count == 1 {
            reveal_with_fuel(joined_chunks, 3);
            if chunks@.len() > 0 {
                assert(views[0] == match chunks@[0] {
                    Some(bytes) => Some(bytes@),
                    None => None,
                });
                if chunks@[0] is Some {
                    assert(Seq::<u8>::empty() + chunks@[0]->Some_0@ =~= chunks@[0]->Some_0@);
                }
            }
        }
    }
}

/// The pieces are put together in their order.
pub proof fn law_pieces_in_order(chunks: Seq<Option<Seq<u8>>>, count: nat)
    requires
        count < chunks.len(),
        chunks[count as int] is Some,
        chunks[count as int]->Some_0.len() <= 2_048,
        joined_chunks(chunks, count) is Ok,
    ensures
        joined_chunks(chunks, count + 1) == Ok::<Seq<u8>, Seq<char>>(
            joined_chunks(chunks, count)->Ok_0 + chunks[count as int]->Some_0,
        ),
        joined_chunks(chunks, 0) == Ok::<Seq<u8>, Seq<char>>(Seq::empty()),
{
}

proof fn lemma_failed_contains(list: Seq<ChunkSetView>, failed: Seq<bool>, set: ChunkSetView)
    ensures
        failed_sets(list, failed).contains(set) <==> exists|i: int|
            0 <= i < list.len() && i < failed.len() && failed[i] && #[trigger] list[i] == set,
    decreases list.len(),
{
    if list.len() > 0 {
        let rest = list.drop_last();
        let before = failed_sets(rest, failed);
        let n = list.len() - 1;
        lemma_failed_contains(rest, failed, set);
        if list.len() <= failed.len() && failed[n] {
            let all = before.push(list.last());
            if all.contains(set) {
                let k = choose|k: int| 0 <= k < all.len() && all[k] == set;
                if k < before.len() {
                    assert(before[k] == set);
                    let i = choose|i: int|
                        0 <= i < rest.len() && i < failed.len() && failed[i] && #[trigger] rest[i]
                            == set;
                    assert(list[i] == set);
                } else {
                    assert(list[n] == set);
                }
            }
            if exists|i: int|
                0 <= i < list.len() && i < failed.len() && failed[i] && #[trigger] list[i] == set {
                let i = choose|i: int|
                    0 <= i < list.len() && i < failed.len() && failed[i] && #[trigger] list[i]
                        == set;
                if i < n {
                    assert(rest[i] == set);
                    let k = choose|k: int| 0 <= k < before.len() && before[k] == set;
                    assert(all[k] == set);
                } else {
                    assert(all[before.len() as int] == set);
                }
            }
        } else {
            if exists|i: int|
                0 <= i < list.len() && i < failed.len() && failed[i] && #[trigger] list[i] == set {
                let i = choose|i: int|
                    0 <= i < list.len() && i < failed.len() && failed[i] && #[trigger] list[i]
                        == set;
                assert(rest[i] == set);
            }
            if before.contains(set) {
                let i = choose|i: int|
                    0 <= i < rest.len() && i < failed.len() && failed[i] && #[trigger] rest[i]
                        == set;
                assert(list[i] == set);
            }
        }
    }
}

/// The sets that are left over: those that could not be removed.
pub proof fn law_sets_left(
    list: &Vec<ChunkSet>,
    failed: &Vec<bool>,
    remaining: Vec<ChunkSet>,
    set: ChunkSetView,
)
    requires
        call_ensures(remaining_sets, (list, failed), remaining),
    ensures
        sets(remaining@).contains(set) <==> exists|i: int|
            0 <= i < list@.len() && i < failed@.len() && failed@[i] && (#[trigger] list@[i])@ == set,
{
    let views = sets(list@);
    lemma_failed_contains(views, failed@, set);
    if exists|i: int|
        0 <= i < list@.len() && i < failed@.len() && failed@[i] && (#[trigger] list@[i])@ == set {
        let i = choose|i: int|
            0 <= i < list@.len() && i < failed@.len() && failed@[i] && (#[trigger] list@[i])@
                == set;
        assert(views[i] == set);
    }
    if sets(remaining@).contains(set) {
        let i = choose|i: int|
            0 <= i < views.len() && i < failed@.len() && failed@[i] && #[trigger] views[i] == set;
        assert(list@[i]@ == set);
    }
}

/// A save that failed takes back the pieces that it wrote, and no others.
pub proof fn law_rollback(plan: SavePlan, written: usize, accounts: Vec<String>, i: int)
    requires
        written <= plan.chunks@.len(),
        call_ensures(SavePlan::rollback, (&plan, written), accounts),
    ensures
        accounts@.len() == written,
        0 <= i < written ==> accounts@[i]@ == plan.chunks@[i].account@,
{
    let names = crate::text::texts(accounts@);
    assert(names.len() == accounts@.len());
    if 0 <= i < written {
        assert(names[i] == accounts@[i]@);
        assert(writes(plan.chunks@)[i] == plan.chunks@[i]@);
    }
}

/// A deletion takes the sets that are left over and the current one.
pub proof fn law_deletion(
    account: &str,
    manifest: Option<&CredentialManifest>,
    result: Result<Option<Vec<ChunkSet>>, Error>,
    failed: &Vec<bool>,
    checked: Result<(), Error>,
)
    requires
        call_ensures(CredentialStore::delete, (account, manifest), result),
        call_ensures(check_removed, (failed,), checked),
    ensures
        account@.len() == 0 ==> result is Err,
        account@.len() > 0 && manifest is None ==> result == Ok::<Option<Vec<ChunkSet>>, Error>(
            None,
        ),
        result matches Ok(Some(list)) ==> manifest is Some && sets(list@)
            == manifest->Some_0@.obsolete.push(
            ChunkSetView {
                generation: manifest->Some_0@.generation,
                chunks: manifest->Some_0@.chunks,
            },
        ),
        checked is Ok <==> (forall|i: int| 0 <= i < failed@.len() ==> !#[trigger] failed@[i]),
{
    if failed@.contains(true) {
        let i = choose|i: int| 0 <= i < failed@.len() && failed@[i] == true;
        assert(failed@[i]);
    }
    if exists|i: int| 0 <= i < failed@.len() && #[trigger] failed@[i] {
        let i = choose|i: int| 0 <= i < failed@.len() && #[trigger] failed@[i];
        assert(failed@[i] == true);
    }
}

/// What the store takes: an account with a name, a manifest of at most 2048 bytes,
/// and credentials of the first version.
pub proof fn law_store_limits(
    account: &str,
    named: Result<(), Error>,
    length: usize,
    fits: Result<(), Error>,
    version: u32,
    known: Result<(), Error>,
)
    requires
        call_ensures(validate_account, (account,), named),
        call_ensures(check_manifest_size, (length,), fits),
        call_ensures(check_envelope_version, (version,), known),
    ensures
        named is Ok <==> account@.len() > 0,
        fits is Ok <==> length <= 2_048,
        known is Ok <==> version == 1,
{
}

/// No secret is shown.
pub proof fn law_secrets_are_not_shown(credential: StoredCredential, text: String)
    requires
        call_ensures(StoredCredential::debug_string, (&credential,), text),
    ensures
        credential matches StoredCredential::Password { username, .. } ==> text@
            == "Password { username: "@ + quoted_text(username@)
            + ", password: \"[REDACTED]\" }"@,
        credential matches StoredCredential::Oidc { user_id, username, .. } ==> text@
            == "Oidc { refresh_token: \"[REDACTED]\", user_id: "@ + quoted_text(user_id@)
            + ", username: "@ + quoted_text(username@) + " }"@,
{
}

/// A secret is saved under a new set of its own, on the same conditions.
pub proof fn law_saved_secret(
    account: &str,
    secret: &[u8],
    previous: Option<&CredentialManifest>,
    remaining: &Vec<ChunkSet>,
    result: Result<SavePlan, Error>,
)
    requires
        call_ensures(CredentialStore::save, (account, secret, previous, remaining), result),
    ensures
        account@.len() == 0 || secret@.len() == 0 || secret@.len() > 8_388_608 ==> result is Err,
        previous is Some && remaining@.len() >= 16 ==> result is Err,
        result matches Ok(plan) ==> {
            let m = plan.manifest@;
            &&& m.version == 1 && m.length == secret@.len() && m.sha256 == sha256_digest(secret@)
            &&& m.chunks == plan.chunks@.len() && m.generation.len() == 32
            &&& 2_048 * (m.chunks - 1) < secret@.len() <= 2_048 * m.chunks
            &&& previous is None ==> m.obsolete.len() == 0
        },
{
    assert(sets(remaining@).len() == remaining@.len());
    if result is Ok {
        assert(writes(result->Ok_0.chunks@).len() == result->Ok_0.chunks@.len());
    }
}

} // verus!

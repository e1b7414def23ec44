//! A user of the station and the digest under which a password is kept.

use vstd::prelude::*;
use crate::runtime::{random_uuid, utc_now_seconds};
use crate::text::{hex, hex_string};

verus! {

/// An account.
#[derive(Debug)]
pub struct User {
    /// Identifier of the user.
    pub id: u128,
    /// Name under which the user logs in.
    pub username: String,
    /// Digest of the password, as `password_digest` writes it.
    pub password_hash: String,
    /// Whether the user administers the station.
    pub is_admin: bool,
    /// When the account was made.
    pub created_at: i64,
}

/// The SHA-256 digest of a text's UTF-8 bytes: what `sha2::Sha256`
/// computes.
pub uninterp spec fn sha256(text: Seq<char>) -> Seq<u8>;

/// Feeds the text to `sha2::Sha256` (`Digest::new`, `Digest::update`,
/// `Digest::finalize`) and hands the bytes of the digest back. The result is
/// a function of the text alone and goes by the name `sha256`.
#[verifier::external_body]
fn sha256_digest(text: &str) -> (digest: Vec<u8>)
    ensures
        digest@ == sha256(text@),
{
    let mut hasher = <sha2::Sha256 as sha2::Digest>::new();
    sha2::Digest::update(&mut hasher, text);
    sha2::Digest::finalize(hasher).to_vec()
}

/// The digest under which a password is stored and looked up: its SHA-256
/// digest, written in hexadecimal.
pub fn password_digest(password: &str) -> (digest: String)
    ensures
        digest@ == hex(sha256(password@)),
{
    let digest = sha256_digest(password);
    hex_string(&digest)
}

impl User {
    /// An account under the given identifier, made at `now`.
    pub fn assemble(
        id: u128,
        username: String,
        password_hash: String,
        is_admin: bool,
        now: i64,
    ) -> (user: Self)
        ensures
            user == (User { id, username, password_hash, is_admin, created_at: now }),
    {
        User { id, username, password_hash, is_admin, created_at: now }
    }

    /// An account under a fresh random identifier, made at the present
    /// instant of the machine's clock.
    pub fn new(username: String, password_hash: String, is_admin: bool) -> (user: Self)
        ensures
            user == (User { id: user.id, username, password_hash, is_admin, created_at: user.created_at }),
    {
        let id = random_uuid();
        let now = utc_now_seconds();
        User::assemble(id, username, password_hash, is_admin, now)
    }
}

} // verus!

//! Accounts of the people who run communities: registration data, password hashes
//! and roles.

use vstd::prelude::*;

use crate::codes::{make_salt, salt_alphabet};
use crate::text::str_equal;

verus! {

#[verifier::external_type_specification]
#[verifier::external_body]
pub struct ExUuid(uuid::Uuid);

#[verifier::external_type_specification]
#[verifier::external_body]
pub struct ExNaiveDateTime(chrono::NaiveDateTime);

#[verifier::external_type_specification]
#[verifier::external_body]
pub struct ExArgon2Error(argon2::Error);

/// Names the encoded Argon2 hash that rust-argon2 computes from a password and a salt
/// with its default configuration.
pub uninterp spec fn argon2_encoding(password: Seq<u8>, salt: Seq<u8>) -> Seq<char>;

/// rust-argon2's `hash_encoded` with `Config::default()`: the encoded hash of `pwd`
/// salted with `salt`, named [`argon2_encoding`]. With the default configuration the
/// source fails only on a salt shorter than 8 bytes or longer than `u32::MAX` bytes, or
/// a password longer than `u32::MAX` bytes.
#[verifier::external_body]
fn hash_encoded(pwd: &[u8], salt: &[u8]) -> (r: Result<String, argon2::Error>)
    ensures
        8 <= salt@.len() <= u32::MAX && pwd@.len() <= u32::MAX ==> r is Ok,
        r matches Ok(h) ==> h@ == argon2_encoding(pwd@, salt@),
{
    argon2::hash_encoded(pwd, salt, &argon2::Config::default())
}

/// uuid's `Uuid::new_v4`: a fresh random identifier; nothing is stated of it.
#[verifier::external_body]
fn new_uuid() -> (r: uuid::Uuid) {
    uuid::Uuid::new_v4()
}

/// chrono's `Local::now().naive_local()`: the current local time; nothing is stated of
/// it.
#[verifier::external_body]
fn local_now() -> (r: chrono::NaiveDateTime) {
    chrono::Local::now().naive_local()
}

/// An error answered to a request, with its status code.
pub struct CustomError {
    pub error_status_code: u16,
    pub error_message: String,
}

impl CustomError {
    /// An error with `error_status_code` and `error_message`.
    pub fn new(error_status_code: u16, error_message: String) -> (e: CustomError)
        ensures
            e.error_status_code == error_status_code,
            e.error_message@ == error_message@,
    {
        CustomError { error_status_code, error_message }
    }
}

/// A stored account.
pub struct User {
    pub user_id: i32,
    pub user_uuid: uuid::Uuid,
    pub hash: Vec<u8>,
    pub salt: String,
    pub email: String,
    pub user_name: String,
    pub created_at: chrono::NaiveDateTime,
    pub role: String,
    pub managed_communities: Vec<i32>,
}

/// An account to be stored.
pub struct InsertableUser {
    pub user_uuid: uuid::Uuid,
    pub hash: Vec<u8>,
    pub salt: String,
    pub created_at: chrono::NaiveDateTime,
    pub email: String,
    pub user_name: String,
    pub role: String,
    pub managed_communities: Vec<i32>,
}

/// What a session knows of an account.
pub struct SlimUser {
    pub user_uuid: uuid::Uuid,
    pub email: String,
    pub role: String,
    pub managed_communities: Vec<i32>,
}

/// What a registration form gives.
pub struct UserData {
    pub user_name: String,
    pub email: String,
    pub password: String,
    pub managed_communities: Vec<i32>,
}

/// The account of the current session, if any.
pub struct LoggedUser(pub Option<SlimUser>);

/// The UTF-8 bytes of a text.
pub open spec fn bytes_of(s: Seq<char>) -> Seq<u8> {
    vstd::utf8::encode_utf8(s)
}

/// The encoded hash of `password` salted with `salt`.
pub fn make_hash(password: &str, salt: &str) -> (r: String)
    requires
        8 <= bytes_of(salt@).len() <= u32::MAX,
        bytes_of(password@).len() <= u32::MAX,
    ensures
        r@ == argon2_encoding(bytes_of(password@), bytes_of(salt@)),
{
    let result = hash_encoded(password.as_bytes(), salt.as_bytes());
    match result {
        Ok(h) => h,
        Err(_) => String::new(),
    }
}

/// Whether the bytes `a` and `b` are the same.
fn bytes_equal(a: &[u8], b: &Vec<u8>) -> (r: bool)
    ensures
        r == (a@ == b@),
{
    if a.len() != b.len() {
        return false;
    }
    let mut i: usize = 0;
    while i < a.len()
        invariant
            a@.len() == b@.len(),
            i <= a@.len(),
            forall|j: int| 0 <= j < i ==> a@[j] == b@[j],
        decreases a@.len() - i,
    {
        if a[i] != b[i] {
            return false;
        }
        i = i + 1;
    }
    assert(a@ =~= b@);
    true
}

/// Whether `password`, hashed with the salt `salt`, gives the stored hash `hash`.
pub open spec fn password_matches(hash: Seq<u8>, salt: Seq<char>, password: Seq<char>) -> bool {
    bytes_of(argon2_encoding(bytes_of(password), bytes_of(salt))) == hash
}

/// A stored hash that a password matches is matched by exactly the passwords whose
/// hash with the same salt is the same encoding: the password an account was made
/// with checks against it, and a password whose hash differs does not.
pub proof fn lemma_password_check(hash: Seq<u8>, salt: Seq<char>, registered: Seq<char>, other: Seq<char>)
    requires
        password_matches(hash, salt, registered),
    ensures
        password_matches(hash, salt, other) <==> argon2_encoding(bytes_of(other), bytes_of(salt))
            == argon2_encoding(bytes_of(registered), bytes_of(salt)),
{
    let a = argon2_encoding(bytes_of(other), bytes_of(salt));
    let b = argon2_encoding(bytes_of(registered), bytes_of(salt));
    vstd::utf8::encode_utf8_decode_utf8(a);
    vstd::utf8::encode_utf8_decode_utf8(b);
}

/// Whether `password` is the password of `user`: hashed with the user's salt, it
/// gives the stored hash.
pub fn verify(user: &User, password: &str) -> (r: bool)
    requires
        8 <= bytes_of(user.salt@).len() <= u32::MAX,
        bytes_of(password@).len() <= u32::MAX,
    ensures
        r == password_matches(user.hash@, user.salt@, password@),
{
    let h = make_hash(password, user.salt.as_str());
    bytes_equal(h.as_str().as_bytes(), &user.hash)
}

/// Whether the session of `session_user` with `role` may open the deletion page of the
/// account `slug`: administrators, and the account's own session.
pub fn may_open_account_deletion(role: &str, session_user: &str, slug: &str) -> (r: bool)
    ensures
        r == (role@ == "admin"@ || session_user@ == slug@),
{
    str_equal(role, "admin") || str_equal(session_user, slug)
}

/// Whether a session with `role` may delete an account: only administrators may.
pub fn may_delete_account(role: &str) -> (r: bool)
    ensures
        r == (role@ == "admin"@),
{
    str_equal(role, "admin")
}

/// `Ok(true)` when the session has an account with `role`; otherwise the error
/// "Role not present", code 2.
pub fn has_role(user: &LoggedUser, role: &str) -> (r: Result<bool, CustomError>)
    ensures
        (user.0 matches Some(u) && u.role@ == role@) ==> r == Ok::<bool, CustomError>(true),
        !(user.0 matches Some(u) && u.role@ == role@) ==> (r matches Err(e) && e.error_status_code == 2
            && e.error_message@ == "Role not present"@),
{
    match &user.0 {
        Some(u) => {
            if str_equal(u.role.as_str(), role) {
                return Ok(true);
            }
        },
        None => {},
    }
    Err(CustomError::new(2, "Role not present".to_string()))
}

impl SlimUser {
    /// What a session keeps of an account.
    pub fn from(user: User) -> (s: SlimUser)
        ensures
            s.user_uuid == user.user_uuid,
            s.email@ == user.email@,
            s.role@ == user.role@,
            s.managed_communities@ == user.managed_communities@,
    {
        SlimUser {
            user_uuid: user.user_uuid,
            email: user.email,
            role: user.role,
            managed_communities: user.managed_communities,
        }
    }
}

impl LoggedUser {
    /// The session of the account `slim_user`.
    pub fn from(slim_user: SlimUser) -> (l: LoggedUser)
        ensures
            l.0 == Some(slim_user),
    {
        LoggedUser(Some(slim_user))
    }
}

/// A salt made by [`make_salt`] is ASCII, so it has one byte per character.
proof fn lemma_salt_bytes(s: Seq<char>)
    requires
        s.len() == 128,
        forall|i: int| 0 <= i < 128 ==> salt_alphabet().contains(#[trigger] s[i]),
    ensures
        bytes_of(s).len() == 128,
{
    reveal_strlit("ABCDEFGHIJKLMNOPQRSTUVWXYZabcdefghijklmnopqrstuvwxyz0123456789)(*&^%$#@!~");
    assert(vstd::utf8::is_ascii_chars(s)) by {
        assert forall|i: int| 0 <= i < s.len() implies '\0' <= #[trigger] s[i] <= '\u{7f}' by {
            assert(salt_alphabet().contains(s[i]));
            let k = choose|k: int| 0 <= k < salt_alphabet().len() && salt_alphabet()[k] == s[i];
        }
    }
    vstd::utf8::is_ascii_chars_encode_utf8(s);
}

impl InsertableUser {
    /// A new account for `user_data`: a fresh identifier, a fresh salt, the hash of the
    /// password with that salt, the current time and the role `user`.
    pub fn from(user_data: UserData) -> (u: InsertableUser)
        requires
            bytes_of(user_data.password@).len() <= u32::MAX,
        ensures
            u.user_name@ == user_data.user_name@,
            u.email@ == user_data.email@,
            u.managed_communities@ == user_data.managed_communities@,
            u.role@ == "user"@,
            u.salt@.len() == 128,
            forall|i: int| 0 <= i < 128 ==> salt_alphabet().contains(#[trigger] u.salt@[i]),
            password_matches(u.hash@, u.salt@, user_data.password@),
    {
        let salt = make_salt();
        proof {
            lemma_salt_bytes(salt@);
        }
        let hash_text = make_hash(user_data.password.as_str(), salt.as_str());
        let hash = vstd::slice::slice_to_vec(hash_text.as_str().as_bytes());
        InsertableUser {
            user_name: user_data.user_name,
            user_uuid: new_uuid(),
            email: user_data.email,
            hash,
            created_at: local_now(),
            salt,
            role: "user".to_string(),
            managed_communities: user_data.managed_communities,
        }
    }
}

} // verus!

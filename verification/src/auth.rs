//! Users and their passwords: what is stored of a password, and the checks
//! of a registration.

use sha2::{Digest, Sha256};
use vstd::prelude::*;
use vstd::string::StringSliceAdditionalSpecFns;
use vstd::utf8::encode_utf8;
use crate::text::{chars_of, string_of};

verus! {

/// The SHA-256 digest of a sequence of bytes.
pub uninterp spec fn sha256_digest(data: Seq<u8>) -> Seq<u8>;

/// `Digest::digest` of `Sha256`: the digest of the data, which has 32
/// bytes and depends on the data alone.
#[verifier::external_body]
fn sha256(data: &[u8]) -> (digest: Vec<u8>)
    ensures
        digest@ == sha256_digest(data@),
        digest@.len() == 32,
{
    Sha256::digest(data).to_vec()
}

/// The lower-case hexadecimal digit of a number below 16.
pub open spec fn hex_digit(n: int) -> char {
    if n < 10 {
        (('0' as u32 + n) as u8) as char
    } else {
        (('a' as u32 + n - 10) as u8) as char
    }
}

/// The lower-case hexadecimal form of bytes, two digits a byte.
pub open spec fn hex_of(data: Seq<u8>) -> Seq<char>
    decreases data.len(),
{
    if data.len() == 0 {
        Seq::empty()
    } else {
        hex_of(data.drop_last()).push(hex_digit(data.last() as int / 16)).push(
            hex_digit(data.last() as int % 16),
        )
    }
}

/// What is stored of a password: the hexadecimal form of the SHA-256
/// digest of its bytes.
pub open spec fn password_hash_of(password: Seq<char>) -> Seq<char> {
    hex_of(sha256_digest(encode_utf8(password)))
}

fn hex_char(n: u8) -> (c: char)
    requires
        n < 16,
    ensures
        c == hex_digit(n as int),
{
    if n < 10 {
        (0x30 + n) as char
    } else {
        (0x61 + n - 10) as char
    }
}

/// The lower-case hexadecimal form of bytes.
pub fn to_hex(data: &Vec<u8>) -> (s: String)
    ensures
        s@ == hex_of(data@),
{
    let mut out: Vec<char> = Vec::new();
    let mut i: usize = 0;
    assert(data@.take(0) =~= Seq::<u8>::empty());
    while i < data.len()
        invariant
            i <= data@.len(),
            out@ == hex_of(data@.take(i as int)),
        decreases data@.len() - i,
    {
        let b = data[i];
        proof {
            assert(data@.take(i + 1).drop_last() =~= data@.take(i as int));
            assert(data@.take(i + 1).last() == b);
        }
        out.push(hex_char(b / 16));
        out.push(hex_char(b % 16));
        i += 1;
    }
    assert(data@.take(data@.len() as int) =~= data@);
    string_of(&out)
}

/// A user: a name and what is stored of the password.
#[derive(Debug)]
pub struct User {
    pub username: String,
    password_hash: String,
}

/// The mathematical model of a [`User`].
pub struct UserState {
    pub username: Seq<char>,
    pub password_hash: Seq<char>,
}

impl View for User {
    type V = UserState;

    closed spec fn view(&self) -> UserState {
        UserState { username: self.username@, password_hash: self.password_hash@ }
    }
}

impl User {
    /// A user with the given name and password.
    pub fn new(username: String, password: String) -> (u: User)
        ensures
            u@.username == username@,
            u@.password_hash == password_hash_of(password@),
    {
        let password_hash = User::hash_password(password.as_str());
        User { username, password_hash }
    }

    /// A user as stored: a name and the stored form of a password.
    pub fn from_record(username: String, password_hash: String) -> (u: User)
        ensures
            u@.username == username@,
            u@.password_hash == password_hash@,
    {
        User { username, password_hash }
    }

    /// The stored form of a password.
    pub fn hash_password(password: &str) -> (h: String)
        ensures
            h@ == password_hash_of(password@),
    {
        let digest = sha256(password.as_bytes());
        to_hex(&digest)
    }

    /// Whether the password is the user's.
    pub fn verify_password(&self, password: &str) -> (ok: bool)
        ensures
            ok == (self@.password_hash == password_hash_of(password@)),
    {
        let h = User::hash_password(password);
        self.password_hash == h
    }

    /// The name of the user.
    pub fn name(&self) -> (s: &String)
        ensures
            s@ == self@.username,
    {
        &self.username
    }

    /// The stored form of the user's password.
    pub fn stored_hash(&self) -> (s: &String)
        ensures
            s@ == self@.password_hash,
    {
        &self.password_hash
    }
}

/// Who is logged in.
pub struct AuthSystem {
    current_user: Option<User>,
}

impl AuthSystem {
    pub closed spec fn current(&self) -> Option<User> {
        self.current_user
    }

    /// Nobody is logged in.
    pub fn new() -> (a: AuthSystem)
        ensures
            a.current() is None,
    {
        AuthSystem { current_user: None }
    }

    pub fn is_logged_in(&self) -> (b: bool)
        ensures
            b == self.current() is Some,
    {
        self.current_user.is_some()
    }

    pub fn get_current_user(&self) -> (u: Option<&User>)
        ensures
            match u {
                Some(user) => self.current() == Some(*user),
                None => self.current() is None,
            },
    {
        self.current_user.as_ref()
    }

    /// Logs the user in if the password is the user's.
    pub fn login(&mut self, user: User, password: &str) -> (ok: bool)
        ensures
            ok == (user@.password_hash == password_hash_of(password@)),
            ok ==> final(self).current() == Some(user),
            !ok ==> final(self).current() == old(self).current(),
    {
        if user.verify_password(password) {
            self.current_user = Some(user);
            true
        } else {
            false
        }
    }

    pub fn logout(&mut self)
        ensures
            final(self).current() is None,
    {
        self.current_user = None;
    }
}

/// Why a registration is refused.
#[derive(Clone, Copy, Debug, PartialEq, Eq, Structural)]
pub enum RegistrationError {
    EmptyUsername,
    /// The name holds a colon, which separates name and password in the
    /// stored record.
    ColonInUsername,
    EmptyPassword,
    /// The password has fewer than six bytes.
    ShortPassword,
    /// The password and its confirmation differ.
    Mismatch,
}

/// What is wrong with a user name, if anything is.
pub open spec fn username_check(username: Seq<char>) -> Result<(), RegistrationError> {
    if username.len() == 0 {
        Err(RegistrationError::EmptyUsername)
    } else if username.contains(':') {
        Err(RegistrationError::ColonInUsername)
    } else {
        Ok(())
    }
}

/// What is wrong with a password and its confirmation, if anything is.
pub open spec fn password_check(password: Seq<char>, confirm: Seq<char>) -> Result<
    (),
    RegistrationError,
> {
    if password.len() == 0 {
        Err(RegistrationError::EmptyPassword)
    } else if encode_utf8(password).len() < 6 {
        Err(RegistrationError::ShortPassword)
    } else if password != confirm {
        Err(RegistrationError::Mismatch)
    } else {
        Ok(())
    }
}

/// Checks a user name: not empty, and without a colon.
pub fn check_username(username: &str) -> (r: Result<(), RegistrationError>)
    ensures
        r == username_check(username@),
{
    let v = chars_of(username);
    if v.len() == 0 {
        return Err(RegistrationError::EmptyUsername);
    }
    let mut i: usize = 0;
    while i < v.len()
        invariant
            i <= v@.len(),
            v@ == username@,
            v@.len() > 0,
            forall|j: int| 0 <= j < i ==> v@[j] != ':',
        decreases v@.len() - i,
    {
        if v[i] == ':' {
            assert(v@[i as int] == ':');
            return Err(RegistrationError::ColonInUsername);
        }
        i += 1;
    }
    Ok(())
}

/// Checks a password: not empty, at least six bytes, and equal to its
/// confirmation.
pub fn check_password(password: &String, confirm: &String) -> (r: Result<(), RegistrationError>)
    ensures
        r == password_check(password@, confirm@),
{
    if password.as_str().is_empty() {
        return Err(RegistrationError::EmptyPassword);
    }
    if password.as_str().as_bytes().len() < 6 {
        return Err(RegistrationError::ShortPassword);
    }
    if !(*password == *confirm) {
        return Err(RegistrationError::Mismatch);
    }
    Ok(())
}

/// The index of the first colon from `i` on; the length if there is none.
pub open spec fn colon_from(s: Seq<char>, i: int) -> int
    decreases s.len() - i,
{
    if i < 0 || i >= s.len() {
        s.len() as int
    } else if s[i] == ':' {
        i
    } else {
        colon_from(s, i + 1)
    }
}

/// The name that a stored record begins with: the text before its first
/// colon.
pub open spec fn record_name(line: Seq<char>) -> Seq<char> {
    line.subrange(0, colon_from(line, 0))
}

/// The name and the stored password of a record: the texts before and
/// after its colon, if it has exactly one.
pub open spec fn record_parts(line: Seq<char>) -> Option<(Seq<char>, Seq<char>)> {
    let c = colon_from(line, 0);
    if c < line.len() && colon_from(line, c + 1) == line.len() {
        Some((line.subrange(0, c), line.subrange(c + 1, line.len() as int)))
    } else {
        None
    }
}

proof fn lemma_colon_from(s: Seq<char>, i: int)
    requires
        0 <= i <= s.len(),
    ensures
        i <= colon_from(s, i) <= s.len(),
    decreases s.len() - i,
{
    if i < s.len() && s[i] != ':' {
        lemma_colon_from(s, i + 1);
    }
}

fn find_colon(v: &Vec<char>, from: usize) -> (c: usize)
    requires
        from <= v@.len(),
    ensures
        c == colon_from(v@, from as int),
        from <= c <= v@.len(),
{
    let mut i: usize = from;
    proof {
        lemma_colon_from(v@, from as int);
    }
    while i < v.len()
        invariant
            from <= i <= v@.len(),
            colon_from(v@, from as int) == colon_from(v@, i as int),
        decreases v@.len() - i,
    {
        if v[i] == ':' {
            return i;
        }
        i += 1;
    }
    i
}

fn copy_range(v: &Vec<char>, a: usize, b: usize) -> (out: Vec<char>)
    requires
        a <= b <= v@.len(),
    ensures
        out@ == v@.subrange(a as int, b as int),
{
    let mut out: Vec<char> = Vec::new();
    let mut i: usize = a;
    while i < b
        invariant
            a <= i <= b <= v@.len(),
            out@ == v@.subrange(a as int, i as int),
        decreases b - i,
    {
        out.push(v[i]);
        i += 1;
        assert(v@.subrange(a as int, i as int) =~= v@.subrange(a as int, i - 1).push(v@[i - 1]));
    }
    out
}

/// The name that a stored record begins with.
pub fn record_username(line: &str) -> (name: String)
    ensures
        name@ == record_name(line@),
{
    let v = chars_of(line);
    let c = find_colon(&v, 0);
    string_of(&copy_range(&v, 0, c))
}

/// The user of a stored record, if the record consists of a name, a colon
/// and a stored password.
pub fn parse_user_record(line: &str) -> (r: Option<User>)
    ensures
        match r {
            Some(u) => record_parts(line@) == Some((u@.username, u@.password_hash)),
            None => record_parts(line@) is None,
        },
{
    let v = chars_of(line);
    let c = find_colon(&v, 0);
    if c >= v.len() {
        return None;
    }
    let d = find_colon(&v, c + 1);
    if d != v.len() {
        return None;
    }
    let name = string_of(&copy_range(&v, 0, c));
    let hash = string_of(&copy_range(&v, c + 1, v.len()));
    Some(User::from_record(name, hash))
}

} // verus!

//! Account names, password verifiers, and the field codec of the user
//! catalog snapshot.

use vstd::prelude::*;
use crate::acpi::{le_u16, le_u32, le_u64};

verus! {

pub const USER_MAX_USER_NAME_BYTES: usize = 32;
pub const USER_MAX_ROLE_NAME_BYTES: usize = 32;
pub const USER_MAX_PASSWORD_BYTES: usize = 128;
pub const USER_ARGON2_SALT_BYTES: usize = 16;
pub const USER_ARGON2_OUTPUT_BYTES: usize = 32;
pub const MAX_ROLE_GRANTS: usize = 8;
pub const MAX_ROLE_TEMPLATES: usize = 8;

/// Argon2id cost parameters: memory in KiB, passes, lanes.
pub const ARGON2_MEMORY_KIB: u32 = 1024;
pub const ARGON2_TIME_COST: u32 = 1;
pub const ARGON2_LANES: u32 = 1;
/// Verifier format version.
pub const ARGON2_VERSION: u8 = 1;

#[derive(Clone, Copy, Debug, PartialEq, Eq, Structural)]
pub enum UserError {
    InvalidName,
    InvalidPassword,
    AlreadyClaimed,
    NotClaimed,
    Capacity,
    NotFound,
    Unauthorized,
    BadCredentials,
    Stale,
    Revoked,
    Corrupt,
    Crypto,
    Entropy,
    Persistence,
}

/// Lower-case ASCII letters, digits, `-`, `_` and `.`.
pub open spec fn is_name_byte(byte: u8) -> bool {
    (0x61 <= byte <= 0x7a) || (0x30 <= byte <= 0x39) || byte == 0x2d || byte == 0x5f || byte == 0x2e
}

/// A canonical name: not empty, at most `max` bytes, of name bytes only.
pub open spec fn name_valid(input: Seq<u8>, max: int) -> bool {
    &&& 0 < input.len() <= max
    &&& forall|i: int| 0 <= i < input.len() ==> is_name_byte(#[trigger] input[i])
}

fn check_name(input: &[u8], max: usize) -> (r: bool)
    ensures
        r == name_valid(input@, max as int),
{
    if input.len() == 0 || input.len() > max {
        return false;
    }
    let mut i: usize = 0;
    while i < input.len()
        invariant
            i <= input@.len(),
            forall|j: int| 0 <= j < i ==> is_name_byte(#[trigger] input@[j]),
        decreases input@.len() - i,
    {
        let b = input[i];
        if !((0x61 <= b && b <= 0x7a) || (0x30 <= b && b <= 0x39) || b == 0x2d || b == 0x5f || b
            == 0x2e) {
            assert(!is_name_byte(input@[i as int]));
            return false;
        }
        i += 1;
    }
    true
}

/// `input` at the front of a zeroed array of `N` bytes.
fn padded_array<const N: usize>(input: &[u8]) -> (r: [u8; N])
    requires
        input@.len() <= N,
    ensures
        r@.take(input@.len() as int) == input@,
        forall|i: int| input@.len() <= i < N ==> r@[i] == 0,
{
    let mut out = [0u8; N];
    let mut i: usize = 0;
    while i < input.len()
        invariant
            input@.len() <= N,
            out@.len() == N,
            i <= input@.len(),
            forall|j: int| 0 <= j < i ==> out@[j] == input@[j],
            forall|j: int| input@.len() <= j < N ==> out@[j] == 0,
        decreases input@.len() - i,
    {
        out.set(i, input[i]);
        i += 1;
    }
    assert(out@.take(input@.len() as int) =~= input@);
    out
}

/// Whether the first `len` bytes of two arrays agree.
fn prefix_equal<const N: usize>(left: &[u8; N], right: &[u8; N], len: usize) -> (r: bool)
    requires
        len <= N,
    ensures
        r == (left@.take(len as int) == right@.take(len as int)),
{
    let mut i: usize = 0;
    while i < len
        invariant
            len <= N,
            i <= len,
            left@.take(i as int) == right@.take(i as int),
        decreases len - i,
    {
        if left[i] != right[i] {
            assert(left@.take(len as int)[i as int] != right@.take(len as int)[i as int]);
            return false;
        }
        i += 1;
        assert(left@.take(i as int) =~= right@.take(i as int));
    }
    true
}

/// A validated user name, zero padded to its full width.
#[derive(Clone, Copy, Debug, PartialEq, Eq)]
pub struct UserName {
    bytes: [u8; USER_MAX_USER_NAME_BYTES],
    len: u8,
}

impl UserName {
    /// The name itself.
    pub closed spec fn view(&self) -> Seq<u8> {
        self.bytes@.take(self.len as int)
    }

    /// The padded field.
    pub closed spec fn field(&self) -> Seq<u8> {
        self.bytes@
    }

    /// The recorded name length.
    pub closed spec fn length(&self) -> u8 {
        self.len
    }

    pub open spec fn wf(&self) -> bool {
        &&& self.field().len() == USER_MAX_USER_NAME_BYTES
        &&& self.length() <= USER_MAX_USER_NAME_BYTES
        &&& self@.len() == self.length()
        &&& name_valid(self@, USER_MAX_USER_NAME_BYTES as int)
        &&& forall|i: int| self@.len() <= i < USER_MAX_USER_NAME_BYTES ==> self.field()[i] == 0
    }

    pub fn parse(input: &[u8]) -> (r: Result<Self, UserError>)
        ensures
            match r {
                Ok(name) => name_valid(input@, USER_MAX_USER_NAME_BYTES as int) && name@ == input@
                    && name.wf() && name == user_name_of(input@),
                Err(e) => e == UserError::InvalidName && !name_valid(
                    input@,
                    USER_MAX_USER_NAME_BYTES as int,
                ),
            },
    {
        if !check_name(input, USER_MAX_USER_NAME_BYTES) {
            return Err(UserError::InvalidName);
        }
        let bytes = padded_array::<USER_MAX_USER_NAME_BYTES>(input);
        let name = UserName { bytes, len: input.len() as u8 };
        assert(name@ == input@);
        proof {
            lemma_user_name_of(name);
        }
        Ok(name)
    }

    /// The padded name field.
    pub fn as_bytes(self) -> (r: [u8; USER_MAX_USER_NAME_BYTES])
        ensures
            r@ == self.field(),
    {
        self.bytes
    }

    pub fn len(self) -> (r: usize)
        requires
            self.wf(),
        ensures
            r == self@.len(),
    {
        self.len as usize
    }

    pub fn is_empty(self) -> (r: bool)
        requires
            self.wf(),
        ensures
            r == (self@.len() == 0),
    {
        self.len == 0
    }

    /// The name without padding.
    pub fn slice(&self) -> (r: &[u8])
        requires
            self.wf(),
        ensures
            r@ == self@,
    {
        vstd::slice::slice_subrange(self.bytes.as_slice(), 0, self.len as usize)
    }

    /// Whether two names are the same name.
    pub fn same(&self, other: &UserName) -> (r: bool)
        requires
            self.wf(),
            other.wf(),
        ensures
            r == (self@ == other@),
    {
        self.len == other.len && prefix_equal(&self.bytes, &other.bytes, self.len as usize)
    }
}

/// The canonical name with the bytes `name`.
pub open spec fn user_name_of(name: Seq<u8>) -> UserName {
    choose|n: UserName| n.wf() && n@ == name
}

/// Two well-formed names with the same bytes are the same value.
pub proof fn lemma_user_name_canonical(a: UserName, b: UserName)
    requires
        a.wf(),
        b.wf(),
        a@ == b@,
    ensures
        a == b,
{
    assert(a.len == b.len);
    assert forall|i: int| 0 <= i < USER_MAX_USER_NAME_BYTES implies a.bytes@[i] == b.bytes@[i] by {
        if i < a.len {
            assert(a@[i] == b@[i]);
            assert(a.bytes@.take(a.len as int)[i] == a.bytes@[i]);
            assert(b.bytes@.take(b.len as int)[i] == b.bytes@[i]);
        } else {
            assert(a.field()[i] == 0);
            assert(b.field()[i] == 0);
        }
    }
    assert(a.bytes =~= b.bytes);
}

pub proof fn lemma_user_name_of(n: UserName)
    requires
        n.wf(),
    ensures
        user_name_of(n@) == n,
{
    let m = user_name_of(n@);
    assert(m.wf() && m@ == n@);
    lemma_user_name_canonical(m, n);
}

/// The first `k` bytes of `name` followed by zeros.
pub open spec fn padded_spec(name: Seq<u8>, k: int) -> [u8; USER_MAX_USER_NAME_BYTES]
    decreases k,
{
    if k <= 0 {
        vstd::array::spec_array_fill_for_copy_type::<u8, USER_MAX_USER_NAME_BYTES>(0)
    } else {
        vstd::array::spec_array_update(padded_spec(name, k - 1), k - 1, name[k - 1])
    }
}

proof fn lemma_padded_spec(name: Seq<u8>, k: int)
    requires
        0 <= k <= name.len() <= USER_MAX_USER_NAME_BYTES,
    ensures
        forall|i: int| 0 <= i < k ==> padded_spec(name, k)@[i] == name[i],
        forall|i: int| k <= i < USER_MAX_USER_NAME_BYTES ==> padded_spec(name, k)@[i] == 0,
    decreases k,
{
    broadcast use vstd::array::group_array_axioms;
    if k > 0 {
        lemma_padded_spec(name, k - 1);
        let prev = padded_spec(name, k - 1);
        assert(padded_spec(name, k)@ == prev@.update(k - 1, name[k - 1]));
    } else {
        let z = vstd::array::spec_array_fill_for_copy_type::<u8, USER_MAX_USER_NAME_BYTES>(0);
        assert(padded_spec(name, k) == z);
        assert(forall|i: int| 0 <= i < USER_MAX_USER_NAME_BYTES ==> z@[i] == 0);
    }
}

/// The padded field of a user name has its full width.
pub proof fn lemma_user_field_width(u: UserName)
    ensures
        u.field().len() == USER_MAX_USER_NAME_BYTES,
{
}

/// The padded field of a role name has its full width.
pub proof fn lemma_role_field_width(r: RoleName)
    ensures
        r.field().len() == USER_MAX_ROLE_NAME_BYTES,
{
}

/// A well-formed name is the front of its padded field.
pub proof fn lemma_user_name_field(n: UserName)
    requires
        n.wf(),
    ensures
        n.field().len() == USER_MAX_USER_NAME_BYTES,
        n@.len() <= USER_MAX_USER_NAME_BYTES,
        n.field().subrange(0, n@.len() as int) == n@,
{
    assert(n.field().subrange(0, n@.len() as int) =~= n@);
}

/// A well-formed role name is the front of its padded field.
pub proof fn lemma_role_name_field(n: RoleName)
    requires
        n.wf(),
    ensures
        n.field().len() == USER_MAX_ROLE_NAME_BYTES,
        n@.len() <= USER_MAX_ROLE_NAME_BYTES,
        n.field().subrange(0, n@.len() as int) == n@,
{
    assert(n.field().subrange(0, n@.len() as int) =~= n@);
}

/// A valid name is the name of a well-formed `UserName`.
pub proof fn lemma_user_name_of_valid(name: Seq<u8>)
    requires
        name_valid(name, USER_MAX_USER_NAME_BYTES as int),
    ensures
        user_name_of(name).wf(),
        user_name_of(name)@ == name,
{
    lemma_padded_spec(name, name.len() as int);
    let n = UserName { bytes: padded_spec(name, name.len() as int), len: name.len() as u8 };
    assert(n@ =~= name);
    assert(n.wf());
}

/// A validated role name, zero padded to its full width.
#[derive(Clone, Copy, Debug, PartialEq, Eq)]
pub struct RoleName {
    bytes: [u8; USER_MAX_ROLE_NAME_BYTES],
    len: u8,
}

impl RoleName {
    pub closed spec fn view(&self) -> Seq<u8> {
        self.bytes@.take(self.len as int)
    }

    pub closed spec fn field(&self) -> Seq<u8> {
        self.bytes@
    }

    pub closed spec fn length(&self) -> u8 {
        self.len
    }

    pub open spec fn wf(&self) -> bool {
        &&& self.field().len() == USER_MAX_ROLE_NAME_BYTES
        &&& self.length() <= USER_MAX_ROLE_NAME_BYTES
        &&& self@.len() == self.length()
        &&& name_valid(self@, USER_MAX_ROLE_NAME_BYTES as int)
        &&& forall|i: int| self@.len() <= i < USER_MAX_ROLE_NAME_BYTES ==> self.field()[i] == 0
    }

    pub fn parse(input: &[u8]) -> (r: Result<Self, UserError>)
        ensures
            match r {
                Ok(name) => name_valid(input@, USER_MAX_ROLE_NAME_BYTES as int) && name@ == input@
                    && name.wf() && name == role_name_of(input@),
                Err(e) => e == UserError::InvalidName && !name_valid(
                    input@,
                    USER_MAX_ROLE_NAME_BYTES as int,
                ),
            },
    {
        if !check_name(input, USER_MAX_ROLE_NAME_BYTES) {
            return Err(UserError::InvalidName);
        }
        let bytes = padded_array::<USER_MAX_ROLE_NAME_BYTES>(input);
        let name = RoleName { bytes, len: input.len() as u8 };
        assert(name@ == input@);
        proof {
            lemma_role_name_of(name);
        }
        Ok(name)
    }

    /// The padded name field.
    pub fn as_bytes(self) -> (r: [u8; USER_MAX_ROLE_NAME_BYTES])
        ensures
            r@ == self.field(),
    {
        self.bytes
    }

    pub fn len(self) -> (r: usize)
        requires
            self.wf(),
        ensures
            r == self@.len(),
    {
        self.len as usize
    }

    /// Whether two names are the same name.
    pub fn same(&self, other: &RoleName) -> (r: bool)
        requires
            self.wf(),
            other.wf(),
        ensures
            r == (self@ == other@),
    {
        self.len == other.len && prefix_equal(&self.bytes, &other.bytes, self.len as usize)
    }
}

/// The canonical role name with the bytes `name`.
pub open spec fn role_name_of(name: Seq<u8>) -> RoleName {
    choose|n: RoleName| n.wf() && n@ == name
}

/// Two well-formed role names with the same bytes are the same value.
pub proof fn lemma_role_name_canonical(a: RoleName, b: RoleName)
    requires
        a.wf(),
        b.wf(),
        a@ == b@,
    ensures
        a == b,
{
    assert(a.len == b.len);
    assert forall|i: int| 0 <= i < USER_MAX_ROLE_NAME_BYTES implies a.bytes@[i] == b.bytes@[i] by {
        if i < a.len {
            assert(a@[i] == b@[i]);
            assert(a.bytes@.take(a.len as int)[i] == a.bytes@[i]);
            assert(b.bytes@.take(b.len as int)[i] == b.bytes@[i]);
        } else {
            assert(a.field()[i] == 0);
            assert(b.field()[i] == 0);
        }
    }
    assert(a.bytes =~= b.bytes);
}

pub proof fn lemma_role_name_of(n: RoleName)
    requires
        n.wf(),
    ensures
        role_name_of(n@) == n,
{
    let m = role_name_of(n@);
    assert(m.wf() && m@ == n@);
    lemma_role_name_canonical(m, n);
}

/// The Argon2id (version 0x13) output for `password` and `salt` at the
/// given memory, pass and lane costs and output length.
pub uninterp spec fn argon2id_digest(
    password: Seq<u8>,
    salt: Seq<u8>,
    memory_kib: u32,
    time_cost: u32,
    lanes: u32,
    output_len: usize,
) -> Seq<u8>;

/// Whether `argon2::Params::new` accepts these costs and
/// `Argon2::hash_password_into` these inputs: at least 8 KiB and 8 KiB per
/// lane, at least one pass, 1 to 0xFF_FFFF lanes, an output of 4 to
/// `u32::MAX` bytes, a salt of 8 to `u32::MAX` bytes and a password of at
/// most `u32::MAX` bytes.
pub open spec fn argon2_accepts(
    password_len: int,
    salt_len: int,
    memory_kib: u32,
    time_cost: u32,
    lanes: u32,
    output_len: usize,
) -> bool {
    &&& memory_kib >= 8
    &&& memory_kib >= 8 * lanes
    &&& time_cost >= 1
    &&& 1 <= lanes <= 0xFF_FFFF
    &&& 4 <= output_len <= u32::MAX
    &&& 8 <= salt_len <= u32::MAX
    &&& password_len <= u32::MAX
}

/// `argon2::Params::new`, `argon2::Argon2::new` with Argon2id and version
/// 0x13, and `Argon2::hash_password_into` into an `output_len` byte buffer.
/// What comes back, when the crate reports no error, is the named digest of
/// exactly these arguments; when the crate reports an error, `None`. The
/// crate reports no error where `argon2_accepts` holds (the checks of
/// `Params::new` and `hash_password_into`). `Params::new` computes
/// `lanes * 8` in `u32` once the memory is at least 8 KiB, so a lane count
/// whose eightfold overflows is left out by `requires`.
#[verifier::external_body]
fn argon2id_hash(
    password: &[u8],
    salt: &[u8],
    memory_kib: u32,
    time_cost: u32,
    lanes: u32,
    output_len: usize,
) -> (r: Option<Vec<u8>>)
    requires
        memory_kib < 8 || 8 * lanes <= u32::MAX,
    ensures
        r matches Some(v) ==> v@ == argon2id_digest(password@, salt@, memory_kib, time_cost, lanes, output_len)
            && v@.len() == output_len,
        argon2_accepts(password@.len() as int, salt@.len() as int, memory_kib, time_cost, lanes, output_len)
            ==> r is Some,
{
    let params = argon2::Params::new(memory_kib, time_cost, lanes, Some(output_len)).ok()?;
    let algorithm = argon2::Argon2::new(argon2::Algorithm::Argon2id, argon2::Version::V0x13, params);
    let mut output = vec![0u8; output_len];
    algorithm.hash_password_into(password, salt, &mut output).ok()?;
    Some(output)
}

/// The verifier digest of `password` under `salt`.
pub open spec fn verifier_digest(password: Seq<u8>, salt: Seq<u8>) -> Seq<u8> {
    argon2id_digest(
        password,
        salt,
        ARGON2_MEMORY_KIB,
        ARGON2_TIME_COST,
        ARGON2_LANES,
        USER_ARGON2_OUTPUT_BYTES,
    )
}

pub open spec fn password_valid(password: Seq<u8>) -> bool {
    0 < password.len() <= USER_MAX_PASSWORD_BYTES
}

/// A stored password check: format version, salt and Argon2id output.
#[derive(Clone, Copy, Debug, PartialEq, Eq)]
pub struct PasswordVerifier {
    pub version: u8,
    pub salt: [u8; USER_ARGON2_SALT_BYTES],
    pub output: [u8; USER_ARGON2_OUTPUT_BYTES],
}

impl PasswordVerifier {
    /// Derive the verifier for `password` under `salt`.
    pub fn create(password: &[u8], salt: [u8; USER_ARGON2_SALT_BYTES]) -> (r: Result<Self, UserError>)
        ensures
            !password_valid(password@) ==> r == Err::<Self, UserError>(UserError::InvalidPassword),
            password_valid(password@) ==> (r matches Ok(v) && v.version == ARGON2_VERSION && v.salt == salt
                && v.output@ == verifier_digest(password@, salt@)),
    {
        if password.len() == 0 || password.len() > USER_MAX_PASSWORD_BYTES {
            return Err(UserError::InvalidPassword);
        }
        match argon2id_hash(
            password,
            salt.as_slice(),
            ARGON2_MEMORY_KIB,
            ARGON2_TIME_COST,
            ARGON2_LANES,
            USER_ARGON2_OUTPUT_BYTES,
        ) {
            Some(digest) => {
                let output = padded_array::<USER_ARGON2_OUTPUT_BYTES>(digest.as_slice());
                assert(output@ =~= digest@);
                Ok(PasswordVerifier { version: ARGON2_VERSION, salt, output })
            },
            None => Err(UserError::Crypto),
        }
    }

    /// Check `password` against the verifier, comparing digests in
    /// constant time.
    pub fn verify(self, password: &[u8]) -> (r: Result<(), UserError>)
        ensures
            (self.version != ARGON2_VERSION || !password_valid(password@)) ==> r == Err::<(), UserError>(
                UserError::BadCredentials,
            ),
            (self.version == ARGON2_VERSION && password_valid(password@)) ==> r == (if verifier_digest(
                password@,
                self.salt@,
            ) == self.output@ {
                Ok::<(), UserError>(())
            } else {
                Err(UserError::BadCredentials)
            }),
    {
        if self.version != ARGON2_VERSION || password.len() == 0 || password.len() > USER_MAX_PASSWORD_BYTES {
            return Err(UserError::BadCredentials);
        }
        let candidate = match PasswordVerifier::create(password, self.salt) {
            Ok(candidate) => candidate,
            Err(e) => return Err(e),
        };
        if constant_time_eq(candidate.output.as_slice(), self.output.as_slice()) {
            Ok(())
        } else {
            Err(UserError::BadCredentials)
        }
    }
}

/// The verifier output array holding the digest of `password` under
/// `salt`.
pub open spec fn digest_array(password: Seq<u8>, salt: Seq<u8>) -> [u8; USER_ARGON2_OUTPUT_BYTES] {
    choose|a: [u8; USER_ARGON2_OUTPUT_BYTES]| a@ == verifier_digest(password, salt)
}

pub proof fn lemma_digest_array(a: [u8; USER_ARGON2_OUTPUT_BYTES], password: Seq<u8>, salt: Seq<u8>)
    requires
        a@ == verifier_digest(password, salt),
    ensures
        digest_array(password, salt) == a,
{
    let b = digest_array(password, salt);
    assert(b@ == a@);
    assert(b =~= a);
}

/// A verifier made from a password accepts that password again, and
/// accepts another password only when both have the same digest.
pub proof fn lemma_verifier_accepts_its_password(
    password: Seq<u8>,
    other: Seq<u8>,
    salt: Seq<u8>,
    verifier: PasswordVerifier,
)
    requires
        password_valid(password),
        verifier.version == ARGON2_VERSION,
        verifier.salt@ == salt,
        verifier.output@ == verifier_digest(password, salt),
    ensures
        verifier_digest(password, verifier.salt@) == verifier.output@,
        verifier_digest(other, verifier.salt@) == verifier.output@ <==> verifier_digest(other, salt)
            == verifier_digest(password, salt),
{
}

pub open spec fn xor_or_step(difference: u8, left: u8, right: u8) -> u8 {
    difference | (left ^ right)
}

/// Equality of two byte strings, examining every byte whatever the
/// earlier ones held.
pub fn constant_time_eq(left: &[u8], right: &[u8]) -> (r: bool)
    ensures
        r == (left@ == right@),
{
    if left.len() != right.len() {
        return false;
    }
    let mut difference: u8 = 0;
    let mut i: usize = 0;
    while i < left.len()
        invariant
            left@.len() == right@.len(),
            i <= left@.len(),
            (difference == 0) == (forall|j: int| 0 <= j < i ==> left@[j] == right@[j]),
        decreases left@.len() - i,
    {
        let l = left[i];
        let rr = right[i];
        let next = difference | (l ^ rr);
        assert((next == 0) == (difference == 0 && l == rr)) by (bit_vector)
            requires
                next == difference | (l ^ rr),
        ;
        difference = next;
        i += 1;
    }
    let equal = difference == 0;
    assert(equal ==> left@ =~= right@);
    equal
}

/// Bytes one user record takes in a snapshot.
pub fn encoded_user_bytes() -> (r: usize)
    ensures
        r == 8 + 4 + 1 + USER_MAX_USER_NAME_BYTES + 1 + USER_ARGON2_SALT_BYTES
            + USER_ARGON2_OUTPUT_BYTES + 8 + 4 + 1 + 1 + MAX_ROLE_GRANTS * 12 + 8,
{
    212
}

/// Bytes one role record takes in a snapshot.
pub fn encoded_role_bytes() -> (r: usize)
    ensures
        r == 8 + 4 + 1 + USER_MAX_ROLE_NAME_BYTES + 1 + MAX_ROLE_TEMPLATES * (1 + 8 + 4 + 1),
{
    158
}

/// Read one byte at `*offset` and advance past it; `Corrupt` past the end.
pub fn read_u8(input: &[u8], offset: &mut usize) -> (r: Result<u8, UserError>)
    ensures
        *old(offset) < input@.len() ==> r == Ok::<u8, UserError>(input@[*old(offset) as int])
            && *final(offset) == *old(offset) + 1,
        *old(offset) >= input@.len() ==> r == Err::<u8, UserError>(UserError::Corrupt) && *final(offset) == *old(offset),
{
    if *offset >= input.len() {
        return Err(UserError::Corrupt);
    }
    let value = input[*offset];
    *offset = *offset + 1;
    Ok(value)
}

/// Read a little-endian value at `*offset` and advance past it.
pub fn read_u16(input: &[u8], offset: &mut usize) -> (r: Result<u16, UserError>)
    ensures
        *old(offset) + 2 <= input@.len() ==> r == Ok::<u16, UserError>(
            le_u16(input@, *old(offset) as int) as u16,
        ) && *final(offset) == *old(offset) + 2,
        *old(offset) + 2 > input@.len() ==> r == Err::<u16, UserError>(UserError::Corrupt)
            && *final(offset) == *old(offset),
{
    if *offset > input.len() || input.len() - *offset < 2 {
        return Err(UserError::Corrupt);
    }
    let value = crate::aml::read_le_u16_at(input, *offset);
    *offset = *offset + 2;
    Ok(value)
}

/// Read a little-endian value at `*offset` and advance past it.
pub fn read_u32(input: &[u8], offset: &mut usize) -> (r: Result<u32, UserError>)
    ensures
        *old(offset) + 4 <= input@.len() ==> r == Ok::<u32, UserError>(
            le_u32(input@, *old(offset) as int) as u32,
        ) && *final(offset) == *old(offset) + 4,
        *old(offset) + 4 > input@.len() ==> r == Err::<u32, UserError>(UserError::Corrupt)
            && *final(offset) == *old(offset),
{
    if *offset > input.len() || input.len() - *offset < 4 {
        return Err(UserError::Corrupt);
    }
    let value = crate::aml::read_le_u32_at(input, *offset);
    *offset = *offset + 4;
    Ok(value)
}

/// Read a little-endian value at `*offset` and advance past it.
pub fn read_u64(input: &[u8], offset: &mut usize) -> (r: Result<u64, UserError>)
    ensures
        *old(offset) + 8 <= input@.len() ==> r == Ok::<u64, UserError>(
            le_u64(input@, *old(offset) as int) as u64,
        ) && *final(offset) == *old(offset) + 8,
        *old(offset) + 8 > input@.len() ==> r == Err::<u64, UserError>(UserError::Corrupt)
            && *final(offset) == *old(offset),
{
    if *offset > input.len() || input.len() - *offset < 8 {
        return Err(UserError::Corrupt);
    }
    let value = crate::codec::get_u64(input, *offset);
    *offset = *offset + 8;
    Ok(value)
}

/// Read `n` bytes at `*offset` and advance past them.
pub fn read_array(input: &[u8], offset: &mut usize, n: usize) -> (r: Result<Vec<u8>, UserError>)
    ensures
        *old(offset) + n <= input@.len() ==> (r matches Ok(v) && v@ == input@.subrange(
            *old(offset) as int,
            *old(offset) + n,
        )) && *final(offset) == *old(offset) + n,
        *old(offset) + n > input@.len() ==> r == Err::<Vec<u8>, UserError>(UserError::Corrupt)
            && *final(offset) == *old(offset),
{
    if *offset > input.len() || input.len() - *offset < n {
        return Err(UserError::Corrupt);
    }
    let value = crate::aml::slice_range(input, *offset, *offset + n);
    *offset = *offset + n;
    Ok(value)
}

/// Write `value` little-endian at `offset`.
pub fn put_u16(output: &mut Vec<u8>, offset: usize, value: u16)
    requires
        offset + 2 <= old(output)@.len(),
    ensures
        crate::codec::same_outside(old(output)@, final(output)@, offset as int, 2),
        le_u16(final(output)@, offset as int) == value,
{
    crate::codec::put_u16(output, offset, value)
}

} // verus!

//! The canonical snapshot of the user catalog: a header, then every
//! account slot and every role slot at a fixed size. Sessions are not
//! part of it.

use vstd::prelude::*;
use crate::user::{
    UserError, UserName, RoleName, PasswordVerifier, MAX_ROLE_GRANTS, MAX_ROLE_TEMPLATES,
    USER_MAX_USER_NAME_BYTES, USER_MAX_ROLE_NAME_BYTES, USER_ARGON2_SALT_BYTES, USER_ARGON2_OUTPUT_BYTES,
    name_valid, user_name_of, role_name_of,
};
use crate::user_abi::{NamespaceCapabilityHandle, NamespaceRights, NamespaceRoot, RoleId, SessionHandle, UserId};
use crate::user_catalog::{
    CapabilityTemplate, CatalogState, RoleRecord, UserCatalog, UserRecord, MAX_USERS, MAX_ROLES,
    user_record_wf, role_record_wf, without_sessions, catalog_wf, capability_out, login_out, user_named,
    user_with_id, password_accepted,
};
use crate::acpi::{le_u16, le_u32, le_u64};

verus! {

/// The room a snapshot may take.
pub const USER_SNAPSHOT_BYTES: usize = 12288;
pub const SNAPSHOT_VERSION: u16 = 1;
/// Bytes before the first account slot.
pub const SNAPSHOT_HEADER_BYTES: usize = 40;
/// An account slot: a presence byte and the record.
pub const USER_SLOT_BYTES: usize = 213;
/// A role slot: a presence byte and the record.
pub const ROLE_SLOT_BYTES: usize = 159;
/// Where the role slots start.
pub const ROLE_SLOTS_AT: usize = 6856;
/// Bytes a snapshot takes.
pub const SNAPSHOT_USED_BYTES: usize = 9400;

// ----- the encoding -----

/// `LOGUSR01`
pub open spec fn snapshot_magic() -> Seq<u8> {
    seq![0x4cu8, 0x4f, 0x47, 0x55, 0x53, 0x52, 0x30, 0x31]
}

pub open spec fn le16(x: u16) -> Seq<u8> {
    seq![(x % 256) as u8, (x / 256) as u8]
}

pub open spec fn le32(x: u32) -> Seq<u8> {
    seq![(x % 256) as u8, ((x / 256) % 256) as u8, ((x / 65536) % 256) as u8, (x / 16777216) as u8]
}

pub open spec fn le64(x: u64) -> Seq<u8> {
    le32((x % 0x1_0000_0000) as u32) + le32((x / 0x1_0000_0000) as u32)
}

pub open spec fn zeros(n: nat) -> Seq<u8> {
    Seq::new(n, |i: int| 0u8)
}

pub open spec fn flag(b: bool) -> u8 {
    if b {
        1
    } else {
        0
    }
}

/// The fields of `s` one after another.
pub open spec fn joined<T>(s: Seq<T>, f: spec_fn(T) -> Seq<u8>) -> Seq<u8>
    decreases s.len(),
{
    if s.len() == 0 {
        Seq::empty()
    } else {
        f(s[0]) + joined(s.drop_first(), f)
    }
}

pub open spec fn role_id_bytes(id: RoleId) -> Seq<u8> {
    le64(id.value) + le32(id.generation)
}

/// An account record: identifier, name length and padded name, verifier,
/// home root, grant count, administrator flag, grants, next lineage.
pub open spec fn user_bytes(u: UserRecord) -> Seq<u8> {
    le64(u.id.value) + le32(u.id.generation) + seq![u.name@.len() as u8] + u.name.field() + seq![
        u.verifier.version,
    ] + u.verifier.salt@ + u.verifier.output@ + le64(u.home.object) + le32(u.home.generation) + seq![
        u.role_count as u8,
        flag(u.admin),
    ] + joined(u.roles@, |id: RoleId| role_id_bytes(id)) + le64(u.next_lineage)
}

/// A role template: presence, root and rights; zeros for none.
pub open spec fn template_bytes(t: Option<CapabilityTemplate>) -> Seq<u8> {
    match t {
        Some(t) => seq![1u8] + le64(t.root.object) + le32(t.root.generation) + seq![t.rights.0],
        None => seq![0u8] + le64(0) + le32(0) + seq![0u8],
    }
}

/// A role record: identifier, name length and padded name, template
/// count, templates.
pub open spec fn role_bytes(r: RoleRecord) -> Seq<u8> {
    le64(r.id.value) + le32(r.id.generation) + seq![r.name@.len() as u8] + r.name.field() + seq![
        r.template_count as u8,
    ] + joined(r.templates@, |t: Option<CapabilityTemplate>| template_bytes(t))
}

pub open spec fn user_slot_bytes(u: Option<UserRecord>) -> Seq<u8> {
    match u {
        Some(u) => seq![1u8] + user_bytes(u),
        None => seq![0u8] + zeros(212),
    }
}

pub open spec fn role_slot_bytes(r: Option<RoleRecord>) -> Seq<u8> {
    match r {
        Some(r) => seq![1u8] + role_bytes(r),
        None => seq![0u8] + zeros(158),
    }
}

pub open spec fn snapshot_header(c: CatalogState) -> Seq<u8> {
    snapshot_magic() + le16(SNAPSHOT_VERSION) + seq![flag(c.claimed)] + zeros(5) + le64(c.next_user) + le64(
        c.next_role,
    ) + le64(c.next_lineage)
}

/// The snapshot of a catalog: header, account slots, role slots.
#[verifier::opaque]
pub open spec fn snapshot_bytes(c: CatalogState) -> Seq<u8> {
    snapshot_header(c) + joined(c.users, |u: Option<UserRecord>| user_slot_bytes(u)) + joined(
        c.roles,
        |r: Option<RoleRecord>| role_slot_bytes(r),
    )
}

// ----- reading it back -----

/// At most `n` bytes of `input` from `at`.
pub open spec fn window(input: Seq<u8>, at: int, n: int) -> Seq<u8> {
    if at >= input.len() {
        Seq::empty()
    } else if at + n <= input.len() {
        input.subrange(at, at + n)
    } else {
        input.subrange(at, input.len() as int)
    }
}

/// The array whose elements are `s`.
pub open spec fn array_of<T, const N: usize>(s: Seq<T>) -> [T; N] {
    choose|a: [T; N]| a@ == s
}

pub open spec fn user_id_in(w: Seq<u8>) -> UserId {
    UserId { value: le_u64(w, 0) as u64, generation: le_u32(w, 8) as u32 }
}

pub open spec fn role_record_id_in(w: Seq<u8>) -> RoleId {
    RoleId { value: le_u64(w, 0) as u64, generation: le_u32(w, 8) as u32 }
}

/// A grant: the role named at `at`, or the empty role when either half
/// is zero.
pub open spec fn granted_id_in(w: Seq<u8>, at: int) -> RoleId {
    let value = le_u64(w, at) as u64;
    let generation = le_u32(w, at + 8) as u32;
    if value != 0 && generation != 0 {
        RoleId { value, generation }
    } else {
        RoleId { value: 0, generation: 0 }
    }
}

pub open spec fn home_in(w: Seq<u8>) -> NamespaceRoot {
    NamespaceRoot { object: le_u64(w, 94) as u64, generation: le_u32(w, 102) as u32 }
}

/// The name of `len` bytes at `at`.
pub open spec fn name_in(w: Seq<u8>, at: int) -> Seq<u8> {
    w.subrange(at + 1, at + 1 + w[at] as int)
}

/// An account record from its bytes: `None` where the name length runs
/// past the name field, which this library does not read.
pub open spec fn user_from_bytes(w: Seq<u8>) -> Option<Result<UserRecord, UserError>> {
    if w.len() < 45 || !user_id_in(w).valid() {
        Some(Err(UserError::Corrupt))
    } else if w[12] > USER_MAX_USER_NAME_BYTES {
        None
    } else if !name_valid(name_in(w, 12), USER_MAX_USER_NAME_BYTES as int) {
        Some(Err(UserError::InvalidName))
    } else if w.len() < 212 || !home_in(w).valid() || w[106] > MAX_ROLE_GRANTS || w[107] > 1 || le_u64(w, 204) == 0 {
        Some(Err(UserError::Corrupt))
    } else {
        Some(
            Ok(
                UserRecord {
                    id: user_id_in(w),
                    name: user_name_of(name_in(w, 12)),
                    verifier: PasswordVerifier {
                        version: w[45],
                        salt: array_of(w.subrange(46, 62)),
                        output: array_of(w.subrange(62, 94)),
                    },
                    home: home_in(w),
                    roles: array_of(Seq::new(MAX_ROLE_GRANTS as nat, |j: int| granted_id_in(w, 108 + 12 * j))),
                    role_count: w[106] as usize,
                    next_lineage: le_u64(w, 204) as u64,
                    admin: w[107] == 1,
                },
            ),
        )
    }
}

/// The template at `at` is absent, or present with known rights and a
/// root whose halves are both zero or both not.
pub open spec fn template_ok(w: Seq<u8>, at: int) -> bool {
    let present = w[at];
    let object = le_u64(w, at + 1);
    let generation = le_u32(w, at + 9);
    let rights = w[at + 13];
    present <= 1 && (present == 1 ==> rights <= 7 && (object != 0) == (generation != 0))
}

/// Template slot `t` of a role record is well formed.
pub open spec fn template_slot_ok(w: Seq<u8>, t: int) -> bool {
    template_ok(w, 46 + 14 * t)
}

pub open spec fn template_in(w: Seq<u8>, at: int) -> Option<CapabilityTemplate> {
    if w[at] == 1 {
        Some(
            CapabilityTemplate {
                root: NamespaceRoot { object: le_u64(w, at + 1) as u64, generation: le_u32(w, at + 9) as u32 },
                rights: NamespaceRights(w[at + 13]),
            },
        )
    } else {
        None
    }
}

/// A role record from its bytes, `None` as for accounts.
pub open spec fn role_from_bytes(w: Seq<u8>) -> Option<Result<RoleRecord, UserError>> {
    if w.len() < 45 || !role_record_id_in(w).valid() {
        Some(Err(UserError::Corrupt))
    } else if w[12] > USER_MAX_ROLE_NAME_BYTES {
        None
    } else if !name_valid(name_in(w, 12), USER_MAX_ROLE_NAME_BYTES as int) {
        Some(Err(UserError::InvalidName))
    } else if w.len() < 158 || w[45] > MAX_ROLE_TEMPLATES || exists|t: int|
        0 <= t < MAX_ROLE_TEMPLATES && !#[trigger] template_slot_ok(w, t) {
        Some(Err(UserError::Corrupt))
    } else {
        Some(
            Ok(
                RoleRecord {
                    id: role_record_id_in(w),
                    name: role_name_of(name_in(w, 12)),
                    templates: array_of(Seq::new(MAX_ROLE_TEMPLATES as nat, |t: int| template_in(w, 46 + 14 * t))),
                    template_count: w[45] as usize,
                },
            ),
        )
    }
}

/// The account slot at `at`: empty, an account, or the error it holds.
pub open spec fn user_slot_at(input: Seq<u8>, at: int) -> Option<Result<Option<UserRecord>, UserError>> {
    if at >= input.len() || input[at] > 1 {
        Some(Err(UserError::Corrupt))
    } else if input[at] == 0 {
        Some(Ok(None))
    } else {
        match user_from_bytes(window(input, at + 1, 212)) {
            None => None,
            Some(Err(e)) => Some(Err(e)),
            Some(Ok(u)) => Some(Ok(Some(u))),
        }
    }
}

/// The role slot at `at`.
pub open spec fn role_slot_at(input: Seq<u8>, at: int) -> Option<Result<Option<RoleRecord>, UserError>> {
    if at >= input.len() || input[at] > 1 {
        Some(Err(UserError::Corrupt))
    } else if input[at] == 0 {
        Some(Ok(None))
    } else {
        match role_from_bytes(window(input, at + 1, 158)) {
            None => None,
            Some(Err(e)) => Some(Err(e)),
            Some(Ok(r)) => Some(Ok(Some(r))),
        }
    }
}

/// The account slots from slot `k` on.
pub open spec fn users_from(input: Seq<u8>, k: int) -> Option<Result<Seq<Option<UserRecord>>, UserError>>
    decreases MAX_USERS - k,
{
    if k >= MAX_USERS || k < 0 {
        Some(Ok(Seq::empty()))
    } else {
        match user_slot_at(input, SNAPSHOT_HEADER_BYTES + USER_SLOT_BYTES * k) {
            None => None,
            Some(Err(e)) => Some(Err(e)),
            Some(Ok(slot)) => prepend(seq![slot], users_from(input, k + 1)),
        }
    }
}

/// The role slots from slot `k` on.
pub open spec fn roles_from(input: Seq<u8>, k: int) -> Option<Result<Seq<Option<RoleRecord>>, UserError>>
    decreases MAX_ROLES - k,
{
    if k >= MAX_ROLES || k < 0 {
        Some(Ok(Seq::empty()))
    } else {
        match role_slot_at(input, ROLE_SLOTS_AT + ROLE_SLOT_BYTES * k) {
            None => None,
            Some(Err(e)) => Some(Err(e)),
            Some(Ok(slot)) => prepend(seq![slot], roles_from(input, k + 1)),
        }
    }
}

/// What a snapshot restores: the catalog it describes, without sessions;
/// `Corrupt` for a bad header, counter or slot, `InvalidName` for a bad
/// name; `None` for a name length past its field.
pub open spec fn snapshot_decode(input: Seq<u8>) -> Option<Result<CatalogState, UserError>> {
    if input.len() < SNAPSHOT_HEADER_BYTES || input.subrange(0, 8) != snapshot_magic() || le_u16(input, 8)
        != SNAPSHOT_VERSION {
        Some(Err(UserError::Corrupt))
    } else if le_u64(input, 16) == 0 || le_u64(input, 24) == 0 || le_u64(input, 32) == 0 {
        Some(Err(UserError::Corrupt))
    } else {
        match users_from(input, 0) {
            None => None,
            Some(Err(e)) => Some(Err(e)),
            Some(Ok(users)) => match roles_from(input, 0) {
                None => None,
                Some(Err(e)) => Some(Err(e)),
                Some(Ok(roles)) => Some(
                    Ok(
                        without_sessions(
                            input[10] != 0,
                            (le_u64(input, 16) as u64, le_u64(input, 24) as u64, le_u64(input, 32) as u64),
                            users,
                            roles,
                        ),
                    ),
                ),
            },
        }
    }
}

// ----- reading records -----

pub proof fn lemma_array_of<T, const N: usize>(a: [T; N])
    ensures
        array_of::<T, N>(a@) == a,
{
    let b = array_of::<T, N>(a@);
    assert(b@ == a@);
    assert(b =~= a);
}

pub(crate) fn bytes_at<const N: usize>(w: &[u8], at: usize) -> (r: [u8; N])
    requires
        at + N <= w@.len(),
    ensures
        r@ == w@.subrange(at as int, at + N),
{
    let mut r = [0u8; N];
    let n = w.len();
    let mut i: usize = 0;
    while i < N
        invariant
            i <= N,
            n == w@.len(),
            at + N <= w@.len(),
            r@.len() == N,
            forall|j: int| 0 <= j < i ==> #[trigger] r@[j] == w@[at + j],
        decreases N - i,
    {
        r[i] = w[at + i];
        i += 1;
    }
    assert(r@ =~= w@.subrange(at as int, at + N));
    r
}

/// An account record from its bytes.
fn read_user(w: &[u8]) -> (r: Option<Result<UserRecord, UserError>>)
    ensures
        r == user_from_bytes(w@),
        r matches Some(Ok(u)) ==> user_record_wf(u),
{
    if w.len() < 45 {
        return Some(Err(UserError::Corrupt));
    }
    let id = match UserId::new(crate::codec::get_u64(w, 0), crate::codec::get_u32(w, 8)) {
        Some(id) => id,
        None => return Some(Err(UserError::Corrupt)),
    };
    let name_len = w[12] as usize;
    if name_len > USER_MAX_USER_NAME_BYTES {
        return None;
    }
    let name = match UserName::parse(vstd::slice::slice_subrange(w, 13, 13 + name_len)) {
        Ok(name) => name,
        Err(e) => return Some(Err(e)),
    };
    if w.len() < 212 {
        return Some(Err(UserError::Corrupt));
    }
    let home = match NamespaceRoot::new(crate::codec::get_u64(w, 94), crate::codec::get_u32(w, 102)) {
        Some(home) => home,
        None => return Some(Err(UserError::Corrupt)),
    };
    let role_count = w[106] as usize;
    if role_count > MAX_ROLE_GRANTS {
        return Some(Err(UserError::Corrupt));
    }
    let admin = match w[107] {
        0 => false,
        1 => true,
        _ => return Some(Err(UserError::Corrupt)),
    };
    let next_lineage = crate::codec::get_u64(w, 204);
    if next_lineage == 0 {
        return Some(Err(UserError::Corrupt));
    }
    let salt: [u8; USER_ARGON2_SALT_BYTES] = bytes_at(w, 46);
    let output: [u8; USER_ARGON2_OUTPUT_BYTES] = bytes_at(w, 62);
    let mut roles = [RoleId { value: 0, generation: 0 }; MAX_ROLE_GRANTS];
    let mut j: usize = 0;
    while j < MAX_ROLE_GRANTS
        invariant
            j <= MAX_ROLE_GRANTS,
            w@.len() >= 212,
            roles@.len() == MAX_ROLE_GRANTS,
            forall|k: int| 0 <= k < j ==> #[trigger] roles@[k] == granted_id_in(w@, 108 + 12 * k),
        decreases MAX_ROLE_GRANTS - j,
    {
        let at = 108 + 12 * j;
        roles[j] = match RoleId::new(crate::codec::get_u64(w, at), crate::codec::get_u32(w, at + 8)) {
            Some(role) => role,
            None => RoleId { value: 0, generation: 0 },
        };
        j += 1;
    }
    proof {
        lemma_array_of(salt);
        lemma_array_of(output);
        assert(roles@ =~= Seq::new(MAX_ROLE_GRANTS as nat, |k: int| granted_id_in(w@, 108 + 12 * k)));
        lemma_array_of(roles);
        assert(w@.subrange(13, 13 + name_len) == name_in(w@, 12));
    }
    Some(
        Ok(
            UserRecord {
                id,
                name,
                verifier: PasswordVerifier { version: w[45], salt, output },
                home,
                roles,
                role_count,
                next_lineage,
                admin,
            },
        ),
    )
}

/// The template at `at`, when it is well formed.
fn read_template(w: &[u8], at: usize) -> (r: Option<Option<CapabilityTemplate>>)
    requires
        at + 14 <= w@.len(),
    ensures
        r == (if template_ok(w@, at as int) {
            Some(template_in(w@, at as int))
        } else {
            None
        }),
{
    let present = w[at];
    let object = crate::codec::get_u64(w, at + 1);
    let generation = crate::codec::get_u32(w, at + 9);
    let rights = w[at + 13];
    if present > 1 || (present == 1 && (rights > 7 || (object != 0) != (generation != 0))) {
        return None;
    }
    if present == 1 {
        Some(Some(CapabilityTemplate { root: NamespaceRoot { object, generation }, rights: NamespaceRights(rights) }))
    } else {
        Some(None)
    }
}

/// A role record from its bytes.
fn read_role(w: &[u8]) -> (r: Option<Result<RoleRecord, UserError>>)
    ensures
        r == role_from_bytes(w@),
        r matches Some(Ok(role)) ==> role_record_wf(role),
{
    if w.len() < 45 {
        return Some(Err(UserError::Corrupt));
    }
    let id = match RoleId::new(crate::codec::get_u64(w, 0), crate::codec::get_u32(w, 8)) {
        Some(id) => id,
        None => return Some(Err(UserError::Corrupt)),
    };
    let name_len = w[12] as usize;
    if name_len > USER_MAX_ROLE_NAME_BYTES {
        return None;
    }
    let name = match RoleName::parse(vstd::slice::slice_subrange(w, 13, 13 + name_len)) {
        Ok(name) => name,
        Err(e) => return Some(Err(e)),
    };
    proof {
        assert(w@.subrange(13, 13 + name_len) == name_in(w@, 12));
    }
    if w.len() < 158 {
        return Some(Err(UserError::Corrupt));
    }
    let template_count = w[45] as usize;
    if template_count > MAX_ROLE_TEMPLATES {
        return Some(Err(UserError::Corrupt));
    }
    let mut templates: [Option<CapabilityTemplate>; MAX_ROLE_TEMPLATES] = [None; MAX_ROLE_TEMPLATES];
    let mut t: usize = 0;
    while t < MAX_ROLE_TEMPLATES
        invariant
            t <= MAX_ROLE_TEMPLATES,
            w@.len() >= 158,
            role_record_id_in(w@).valid(),
            w@[12] <= USER_MAX_ROLE_NAME_BYTES,
            name_valid(name_in(w@, 12), USER_MAX_ROLE_NAME_BYTES as int),
            w@[45] <= MAX_ROLE_TEMPLATES,
            templates@.len() == MAX_ROLE_TEMPLATES,
            forall|k: int| 0 <= k < t ==> #[trigger] template_slot_ok(w@, k),
            forall|k: int| 0 <= k < t ==> #[trigger] templates@[k] == template_in(w@, 46 + 14 * k),
        decreases MAX_ROLE_TEMPLATES - t,
    {
        match read_template(w, 46 + 14 * t) {
            None => {
                assert(!template_slot_ok(w@, t as int));
                return Some(Err(UserError::Corrupt));
            },
            Some(template) => {
                templates[t] = template;
            },
        }
        t += 1;
    }
    proof {
        assert(templates@ =~= Seq::new(MAX_ROLE_TEMPLATES as nat, |k: int| template_in(w@, 46 + 14 * k)));
        lemma_array_of(templates);
    }
    Some(Ok(RoleRecord { id, name, templates, template_count }))
}

// ----- reading a catalog -----

/// `x`, with `p` in front of the slots it carries when it carries them.
pub open spec fn prepend<T>(p: Seq<T>, x: Option<Result<Seq<T>, UserError>>) -> Option<Result<Seq<T>, UserError>> {
    match x {
        Some(Ok(rest)) => Some(Ok(p + rest)),
        other => other,
    }
}

proof fn lemma_prepend_step<T>(p: Seq<T>, slot: T, x: Option<Result<Seq<T>, UserError>>)
    ensures
        prepend(p, prepend(seq![slot], x)) == prepend(p.push(slot), x),
{
    match x {
        Some(Ok(rest)) => {
            assert(p + (seq![slot] + rest) =~= p.push(slot) + rest);
        },
        _ => {},
    }
}

/// The header is well formed: length, magic, version, non-zero counters.
pub open spec fn header_ok(input: Seq<u8>) -> bool {
    &&& input.len() >= SNAPSHOT_HEADER_BYTES
    &&& input.subrange(0, 8) == snapshot_magic()
    &&& le_u16(input, 8) == SNAPSHOT_VERSION
    &&& le_u64(input, 16) != 0
    &&& le_u64(input, 24) != 0
    &&& le_u64(input, 32) != 0
}

fn read_header(input: &[u8]) -> (r: bool)
    ensures
        r == header_ok(input@),
{
    if input.len() < SNAPSHOT_HEADER_BYTES {
        return false;
    }
    let magic: [u8; 8] = [0x4c, 0x4f, 0x47, 0x55, 0x53, 0x52, 0x30, 0x31];
    let mut i: usize = 0;
    while i < 8
        invariant
            i <= 8,
            input@.len() >= SNAPSHOT_HEADER_BYTES,
            magic@ == snapshot_magic(),
            forall|j: int| 0 <= j < i ==> input@[j] == magic@[j],
        decreases 8 - i,
    {
        if input[i] != magic[i] {
            assert(input@.subrange(0, 8)[i as int] != snapshot_magic()[i as int]);
            return false;
        }
        i += 1;
    }
    assert(input@.subrange(0, 8) =~= snapshot_magic());
    crate::codec::get_u16(input, 8) == SNAPSHOT_VERSION && crate::codec::get_u64(input, 16) != 0
        && crate::codec::get_u64(input, 24) != 0 && crate::codec::get_u64(input, 32) != 0
}

/// At most `n` bytes of `input` from `at`.
fn window_of(input: &[u8], at: usize, n: usize) -> (r: &[u8])
    requires
        at <= input@.len(),
    ensures
        r@ == window(input@, at as int, n as int),
{
    if at == input.len() {
        vstd::slice::slice_subrange(input, at, at)
    } else if input.len() - at >= n {
        vstd::slice::slice_subrange(input, at, at + n)
    } else {
        vstd::slice::slice_subrange(input, at, input.len())
    }
}

fn read_user_slots(input: &[u8]) -> (r: Option<Result<[Option<UserRecord>; MAX_USERS], UserError>>)
    ensures
        match r {
            None => users_from(input@, 0) is None,
            Some(Ok(users)) => users_from(input@, 0) == Some(Ok::<Seq<Option<UserRecord>>, UserError>(users@))
                && forall|i: int| 0 <= i < MAX_USERS && (#[trigger] users@[i]) is Some ==> user_record_wf(users@[i].unwrap()),
            Some(Err(e)) => users_from(input@, 0) == Some(Err::<Seq<Option<UserRecord>>, UserError>(e)),
        },
{
    let mut users: [Option<UserRecord>; MAX_USERS] = [None; MAX_USERS];
    let mut k: usize = 0;
    proof {
        assert(users@.take(0) =~= Seq::<Option<UserRecord>>::empty());
        assert(prepend(Seq::<Option<UserRecord>>::empty(), users_from(input@, 0)) == users_from(input@, 0)) by {
            match users_from(input@, 0) {
                Some(Ok(rest)) => {
                    assert(Seq::<Option<UserRecord>>::empty() + rest =~= rest);
                },
                _ => {},
            }
        }
    }
    while k < MAX_USERS
        invariant
            k <= MAX_USERS,
            users@.len() == MAX_USERS,
            users_from(input@, 0) == prepend(users@.take(k as int), users_from(input@, k as int)),
            forall|i: int| 0 <= i < MAX_USERS && (#[trigger] users@[i]) is Some ==> user_record_wf(users@[i].unwrap()),
        decreases MAX_USERS - k,
    {
        let at = SNAPSHOT_HEADER_BYTES + USER_SLOT_BYTES * k;
        if at >= input.len() {
            return Some(Err(UserError::Corrupt));
        }
        let present = input[at];
        if present > 1 {
            return Some(Err(UserError::Corrupt));
        }
        let slot = if present == 0 {
            None
        } else {
            match read_user(window_of(input, at + 1, 212)) {
                None => return None,
                Some(Err(e)) => return Some(Err(e)),
                Some(Ok(u)) => Some(u),
            }
        };
        assert(user_slot_at(input@, at as int) == Some(Ok::<Option<UserRecord>, UserError>(slot)));
        let ghost before = users@;
        users[k] = slot;
        proof {
            lemma_prepend_step(before.take(k as int), slot, users_from(input@, k + 1));
            assert(users@.take(k + 1) =~= before.take(k as int).push(slot));
        }
        k += 1;
    }
    assert(users@.take(MAX_USERS as int) =~= users@);
    assert(users@ + Seq::<Option<UserRecord>>::empty() =~= users@);
    Some(Ok(users))
}

fn read_role_slots(input: &[u8]) -> (r: Option<Result<[Option<RoleRecord>; MAX_ROLES], UserError>>)
    ensures
        match r {
            None => roles_from(input@, 0) is None,
            Some(Ok(roles)) => roles_from(input@, 0) == Some(Ok::<Seq<Option<RoleRecord>>, UserError>(roles@))
                && forall|i: int| 0 <= i < MAX_ROLES && (#[trigger] roles@[i]) is Some ==> role_record_wf(roles@[i].unwrap()),
            Some(Err(e)) => roles_from(input@, 0) == Some(Err::<Seq<Option<RoleRecord>>, UserError>(e)),
        },
{
    let mut roles: [Option<RoleRecord>; MAX_ROLES] = [None; MAX_ROLES];
    let mut k: usize = 0;
    proof {
        assert(roles@.take(0) =~= Seq::<Option<RoleRecord>>::empty());
        assert(prepend(Seq::<Option<RoleRecord>>::empty(), roles_from(input@, 0)) == roles_from(input@, 0)) by {
            match roles_from(input@, 0) {
                Some(Ok(rest)) => {
                    assert(Seq::<Option<RoleRecord>>::empty() + rest =~= rest);
                },
                _ => {},
            }
        }
    }
    while k < MAX_ROLES
        invariant
            k <= MAX_ROLES,
            roles@.len() == MAX_ROLES,
            roles_from(input@, 0) == prepend(roles@.take(k as int), roles_from(input@, k as int)),
            forall|i: int| 0 <= i < MAX_ROLES && (#[trigger] roles@[i]) is Some ==> role_record_wf(roles@[i].unwrap()),
        decreases MAX_ROLES - k,
    {
        let at = ROLE_SLOTS_AT + ROLE_SLOT_BYTES * k;
        if at >= input.len() {
            return Some(Err(UserError::Corrupt));
        }
        let present = input[at];
        if present > 1 {
            return Some(Err(UserError::Corrupt));
        }
        let slot = if present == 0 {
            None
        } else {
            match read_role(window_of(input, at + 1, 158)) {
                None => return None,
                Some(Err(e)) => return Some(Err(e)),
                Some(Ok(r)) => Some(r),
            }
        };
        assert(role_slot_at(input@, at as int) == Some(Ok::<Option<RoleRecord>, UserError>(slot)));
        let ghost before = roles@;
        roles[k] = slot;
        proof {
            lemma_prepend_step(before.take(k as int), slot, roles_from(input@, k + 1));
            assert(roles@.take(k + 1) =~= before.take(k as int).push(slot));
        }
        k += 1;
    }
    assert(roles@.take(MAX_ROLES as int) =~= roles@);
    assert(roles@ + Seq::<Option<RoleRecord>>::empty() =~= roles@);
    Some(Ok(roles))
}

/// The catalog a snapshot describes; `None` where the snapshot holds a
/// name length past its field.
fn read_catalog(input: &[u8]) -> (r: Option<Result<UserCatalog, UserError>>)
    ensures
        match r {
            None => snapshot_decode(input@) is None,
            Some(Ok(c)) => snapshot_decode(input@) == Some(Ok::<CatalogState, UserError>(c@)) && c.wf(),
            Some(Err(e)) => snapshot_decode(input@) == Some(Err::<CatalogState, UserError>(e)),
        },
{
    if !read_header(input) {
        return Some(Err(UserError::Corrupt));
    }
    let claimed = input[10] != 0;
    let counters = (crate::codec::get_u64(input, 16), crate::codec::get_u64(input, 24), crate::codec::get_u64(input, 32));
    let users = match read_user_slots(input) {
        None => return None,
        Some(Err(e)) => return Some(Err(e)),
        Some(Ok(users)) => users,
    };
    let roles = match read_role_slots(input) {
        None => return None,
        Some(Err(e)) => return Some(Err(e)),
        Some(Ok(roles)) => roles,
    };
    let c = UserCatalog::from_parts(claimed, counters, users, roles);
    Some(Ok(c))
}

impl UserCatalog {
    /// Replace the catalog by the one `input` describes, without sessions;
    /// on an error the catalog stays as it was.
    pub fn restore_snapshot(&mut self, input: &[u8]) -> (r: Result<(), UserError>)
        requires
            old(self).wf(),
            snapshot_decode(input@) is Some,
        ensures
            final(self).wf(),
            snapshot_decode(input@) matches Some(Ok(c)) ==> r is Ok && final(self)@ == c,
            snapshot_decode(input@) matches Some(Err(e)) ==> r == Err::<(), UserError>(e) && final(self)@ == old(self)@,
    {
        match read_catalog(input) {
            Some(Ok(c)) => {
                *self = c;
                Ok(())
            },
            Some(Err(e)) => Err(e),
            None => Err(UserError::Corrupt),
        }
    }
}

// ----- the store -----

/// Where the catalog's snapshot is kept: its owner supplies it and
/// decides where and how it is committed.
pub trait UserCatalogStore {
    /// The snapshot the store keeps, if any. A store defines it for
    /// itself; one that leaves it as it stands claims to keep nothing, so
    /// its `save` can promise no success.
    closed spec fn kept(&self) -> Option<Seq<u8>> {
        None
    }

    /// What each call of `load` was handed and gave, oldest first: the
    /// length of the buffer, the answer, and the buffer after. A store
    /// defines it for itself; one that leaves it as it stands claims to
    /// record nothing, so its `load` can promise nothing.
    closed spec fn loads(&self) -> Seq<(nat, Result<usize, UserError>, Seq<u8>)> {
        Seq::empty()
    }

    /// Fill `output` with the kept snapshot and give its length;
    /// `NotFound` when none is kept.
    fn load(&mut self, output: &mut [u8]) -> (r: Result<usize, UserError>)
        ensures
            final(self).loads() == old(self).loads().push((old(output)@.len(), r, final(output)@)),
            final(self).kept() == old(self).kept(),
            r matches Ok(n) ==> (n <= final(output)@.len() ==> old(self).kept() == Some(final(output)@.take(n as int))),
            r == Err::<usize, UserError>(UserError::NotFound) ==> old(self).kept() is None,
            final(self).saves() == old(self).saves(),
    ;

    /// What each call of `save` was handed and answered, oldest first. A
    /// store defines it for itself; one that leaves it as it stands claims
    /// to record nothing, so its `save` can promise nothing.
    closed spec fn saves(&self) -> Seq<(Seq<u8>, Result<(), UserError>)> {
        Seq::empty()
    }

    /// Keep `snapshot` in place of any earlier one.
    fn save(&mut self, snapshot: &[u8]) -> (r: Result<(), UserError>)
        ensures
            r is Ok ==> final(self).kept() == Some(snapshot@),
            final(self).saves() == old(self).saves().push((snapshot@, r)),
            final(self).loads() == old(self).loads(),
    ;
}

/// The catalog before anything is claimed.
pub open spec fn empty_catalog() -> CatalogState {
    CatalogState {
        claimed: false,
        next_user: 1,
        next_role: 1,
        next_lineage: 1,
        users: Seq::new(MAX_USERS as nat, |i: int| None::<UserRecord>),
        roles: Seq::new(MAX_ROLES as nat, |i: int| None::<RoleRecord>),
        sessions: Seq::new(crate::user_catalog::MAX_SESSIONS as nat, |i: int| None::<crate::user_catalog::SessionRecord>),
    }
}

/// Loading, given what the store answered (`loaded`) and what the buffer
/// holds after it (`bytes`): no snapshot kept is a first boot with an
/// empty catalog; a snapshot is restored as `restore_snapshot` does, and
/// one with a name length past its field is refused as `Corrupt`.
pub open spec fn load_out(c: CatalogState, loaded: Result<usize, UserError>, bytes: Seq<u8>) -> (
    CatalogState,
    Result<(), UserError>,
) {
    match loaded {
        Err(UserError::NotFound) => (empty_catalog(), Ok(())),
        Err(e) => (c, Err(e)),
        Ok(n) => if n > bytes.len() {
            (c, Err(UserError::Persistence))
        } else {
            match snapshot_decode(bytes.take(n as int)) {
                Some(Ok(d)) => (d, Ok(())),
                Some(Err(e)) => (c, Err(e)),
                None => (c, Err(UserError::Corrupt)),
            }
        },
    }
}

impl UserCatalog {
    /// Replace the catalog by what `store` keeps, read through `buffer`:
    /// `load` is called once on the buffer; no snapshot kept gives the
    /// empty catalog, a kept one is restored, and otherwise the catalog
    /// stays as it was and the error is returned.
    pub fn load_from<S: UserCatalogStore>(&mut self, store: &mut S, buffer: &mut [u8]) -> (r: Result<(), UserError>)
        requires
            old(self).wf(),
        ensures
            final(self).wf(),
            final(store).kept() == old(store).kept(),
            exists|loaded: Result<usize, UserError>|
                (final(self)@, r) == #[trigger] load_out(old(self)@, loaded, final(buffer)@) && final(store).loads()
                    == old(store).loads().push((old(buffer)@.len() as nat, loaded, final(buffer)@)),
            final(store).saves() == old(store).saves(),
            r is Ok ==> match old(store).kept() {
                None => final(self)@ == empty_catalog(),
                Some(kept) => snapshot_decode(kept) == Some(Ok::<CatalogState, UserError>(final(self)@)),
            },
    {
        let loaded = store.load(buffer);
        let length = match loaded {
            Ok(length) => length,
            Err(UserError::NotFound) => {
                *self = UserCatalog::new();
                assert(self@ =~= empty_catalog());
                assert((self@, Ok::<(), UserError>(())) == load_out(old(self)@, loaded, buffer@));
                return Ok(());
            },
            Err(e) => {
                assert((self@, Err::<(), UserError>(e)) == load_out(old(self)@, loaded, buffer@));
                return Err(e);
            },
        };
        if length > buffer.len() {
            assert((self@, Err::<(), UserError>(UserError::Persistence)) == load_out(old(self)@, loaded, buffer@));
            return Err(UserError::Persistence);
        }
        let r = match read_catalog(vstd::slice::slice_subrange(buffer, 0, length)) {
            Some(Ok(c)) => {
                *self = c;
                Ok(())
            },
            Some(Err(e)) => Err(e),
            None => Err(UserError::Corrupt),
        };
        assert(buffer@.subrange(0, length as int) =~= buffer@.take(length as int));
        assert((self@, r) == load_out(old(self)@, loaded, buffer@));
        r
    }

    /// Hand `store` the catalog's snapshot, written through `buffer`; the
    /// store's `save` gets the first `SNAPSHOT_USED_BYTES` of it, and its
    /// answer is returned. `Capacity`, and nothing handed over, when `buffer` is
    /// shorter than `USER_SNAPSHOT_BYTES`.
    pub fn save_to<S: UserCatalogStore>(&self, store: &mut S, buffer: &mut [u8]) -> (r: Result<(), UserError>)
        requires
            self.wf(),
        ensures
            old(buffer)@.len() < USER_SNAPSHOT_BYTES ==> r == Err::<(), UserError>(UserError::Capacity)
                && final(buffer)@ == old(buffer)@ && *final(store) == *old(store),
            old(buffer)@.len() >= USER_SNAPSHOT_BYTES ==> final(store).saves() == old(store).saves().push(
                (snapshot_bytes(self@), r),
            ),
            old(buffer)@.len() >= USER_SNAPSHOT_BYTES && r is Ok ==> final(store).kept() == Some(
                snapshot_bytes(self@),
            ),
            old(buffer)@.len() >= USER_SNAPSHOT_BYTES ==> final(buffer)@ == snapshot_bytes(self@) + zeros(
                (USER_SNAPSHOT_BYTES - SNAPSHOT_USED_BYTES) as nat,
            ) + old(buffer)@.skip(USER_SNAPSHOT_BYTES as int),
    {
        let length = match self.encode_snapshot(buffer) {
            Ok(length) => length,
            Err(e) => return Err(e),
        };
        proof {
            lemma_snapshot_len(self@);
        }
        let snapshot = vstd::slice::slice_subrange(buffer, 0, length);
        assert(snapshot@ =~= snapshot_bytes(self@));
        store.save(snapshot)
    }
}

// ----- writing it -----

pub(crate) fn push_le16(v: &mut Vec<u8>, x: u16)
    ensures
        final(v)@ == old(v)@ + le16(x),
{
    v.push((x % 256) as u8);
    v.push((x / 256) as u8);
    assert(v@ =~= old(v)@ + le16(x));
}

pub(crate) fn push_le32(v: &mut Vec<u8>, x: u32)
    ensures
        final(v)@ == old(v)@ + le32(x),
{
    v.push((x % 256) as u8);
    v.push(((x / 256) % 256) as u8);
    v.push(((x / 65536) % 256) as u8);
    v.push((x / 16777216) as u8);
    assert(v@ =~= old(v)@ + le32(x));
}

pub(crate) fn push_le64(v: &mut Vec<u8>, x: u64)
    ensures
        final(v)@ == old(v)@ + le64(x),
{
    push_le32(v, (x % 0x1_0000_0000) as u32);
    push_le32(v, (x / 0x1_0000_0000) as u32);
    assert(v@ =~= old(v)@ + le64(x));
}

pub(crate) fn push_all(v: &mut Vec<u8>, bytes: &[u8])
    ensures
        final(v)@ == old(v)@ + bytes@,
{
    let mut i: usize = 0;
    while i < bytes.len()
        invariant
            i <= bytes@.len(),
            v@ == old(v)@ + bytes@.take(i as int),
        decreases bytes@.len() - i,
    {
        v.push(bytes[i]);
        i += 1;
        assert(v@ =~= old(v)@ + bytes@.take(i as int));
    }
    assert(bytes@.take(i as int) =~= bytes@);
}

pub(crate) fn push_zeros(v: &mut Vec<u8>, n: usize)
    ensures
        final(v)@ == old(v)@ + zeros(n as nat),
{
    let mut i: usize = 0;
    while i < n
        invariant
            i <= n,
            v@ == old(v)@ + zeros(i as nat),
        decreases n - i,
    {
        v.push(0);
        i += 1;
        assert(v@ =~= old(v)@ + zeros(i as nat));
    }
}

proof fn lemma_joined_step<T>(s: Seq<T>, f: spec_fn(T) -> Seq<u8>, k: int)
    requires
        0 <= k < s.len(),
    ensures
        joined(s.take(k + 1), f) == joined(s.take(k), f) + f(s[k]),
    decreases k,
{
    if k == 0 {
        assert(s.take(1).drop_first() =~= Seq::<T>::empty());
        assert(joined(s.take(1).drop_first(), f) == Seq::<u8>::empty());
        assert(joined(s.take(1), f) =~= f(s[0]));
        assert(joined(s.take(0), f) == Seq::<u8>::empty());
        assert(joined(s.take(0), f) + f(s[k]) =~= f(s[0]));
    } else {
        let t = s.drop_first();
        lemma_joined_step(t, f, k - 1);
        assert(s.take(k + 1).drop_first() =~= t.take(k));
        assert(s.take(k).drop_first() =~= t.take(k - 1));
        assert(t[k - 1] == s[k]);
        assert(joined(s.take(k + 1), f) == f(s[0]) + joined(t.take(k), f));
        assert(joined(s.take(k), f) == f(s[0]) + joined(t.take(k - 1), f));
        assert(joined(s.take(k + 1), f) =~= joined(s.take(k), f) + f(s[k]));
    }
}

fn push_role_ids(v: &mut Vec<u8>, ids: &[RoleId; MAX_ROLE_GRANTS])
    ensures
        final(v)@ == old(v)@ + joined(ids@, |id: RoleId| role_id_bytes(id)),
{
    let ghost f = |id: RoleId| role_id_bytes(id);
    let mut i: usize = 0;
    while i < MAX_ROLE_GRANTS
        invariant
            i <= MAX_ROLE_GRANTS,
            ids@.len() == MAX_ROLE_GRANTS,
            f == (|id: RoleId| role_id_bytes(id)),
            v@ == old(v)@ + joined(ids@.take(i as int), f),
        decreases MAX_ROLE_GRANTS - i,
    {
        let ghost before = v@;
        push_le64(v, ids[i].value);
        push_le32(v, ids[i].generation);
        assert(v@ =~= before + role_id_bytes(ids@[i as int]));
        proof {
            lemma_joined_step(ids@, f, i as int);
        }
        assert(f(ids@[i as int]) == role_id_bytes(ids@[i as int]));
        assert(v@ =~= old(v)@ + joined(ids@.take(i + 1), f));
        i += 1;
    }
    assert(ids@.take(MAX_ROLE_GRANTS as int) =~= ids@);
}

fn push_user(v: &mut Vec<u8>, u: &UserRecord)
    requires
        user_record_wf(*u),
    ensures
        final(v)@ == old(v)@ + user_bytes(*u),
{
    push_le64(v, u.id.value);
    push_le32(v, u.id.generation);
    v.push(u.name.len() as u8);
    let name = u.name.as_bytes();
    push_all(v, &name);
    v.push(u.verifier.version);
    push_all(v, &u.verifier.salt);
    push_all(v, &u.verifier.output);
    push_le64(v, u.home.object);
    push_le32(v, u.home.generation);
    v.push(u.role_count as u8);
    v.push(if u.admin {
        1u8
    } else {
        0u8
    });
    push_role_ids(v, &u.roles);
    push_le64(v, u.next_lineage);
    assert(v@ =~= old(v)@ + user_bytes(*u));
}

fn push_templates(v: &mut Vec<u8>, templates: &[Option<CapabilityTemplate>; MAX_ROLE_TEMPLATES])
    ensures
        final(v)@ == old(v)@ + joined(templates@, |t: Option<CapabilityTemplate>| template_bytes(t)),
{
    let ghost f = |t: Option<CapabilityTemplate>| template_bytes(t);
    let mut i: usize = 0;
    while i < MAX_ROLE_TEMPLATES
        invariant
            i <= MAX_ROLE_TEMPLATES,
            templates@.len() == MAX_ROLE_TEMPLATES,
            f == (|t: Option<CapabilityTemplate>| template_bytes(t)),
            v@ == old(v)@ + joined(templates@.take(i as int), f),
        decreases MAX_ROLE_TEMPLATES - i,
    {
        let ghost before = v@;
        match templates[i] {
            Some(t) => {
                v.push(1);
                push_le64(v, t.root.object);
                push_le32(v, t.root.generation);
                v.push(t.rights.0);
            },
            None => {
                v.push(0);
                push_le64(v, 0);
                push_le32(v, 0);
                v.push(0);
            },
        }
        assert(v@ =~= before + template_bytes(templates@[i as int]));
        proof {
            lemma_joined_step(templates@, f, i as int);
        }
        assert(f(templates@[i as int]) == template_bytes(templates@[i as int]));
        assert(v@ =~= old(v)@ + joined(templates@.take(i + 1), f));
        i += 1;
    }
    assert(templates@.take(MAX_ROLE_TEMPLATES as int) =~= templates@);
}

fn push_role(v: &mut Vec<u8>, r: &RoleRecord)
    requires
        role_record_wf(*r),
    ensures
        final(v)@ == old(v)@ + role_bytes(*r),
{
    push_le64(v, r.id.value);
    push_le32(v, r.id.generation);
    v.push(r.name.len() as u8);
    let name = r.name.as_bytes();
    push_all(v, &name);
    v.push(r.template_count as u8);
    push_templates(v, &r.templates);
    assert(v@ =~= old(v)@ + role_bytes(*r));
}

/// Put `bytes` at the front of `output`, then zeros up to `width`.
fn write_front(output: &mut [u8], bytes: &[u8], width: usize)
    requires
        bytes@.len() <= width <= old(output)@.len(),
    ensures
        final(output)@ == bytes@ + zeros((width - bytes@.len()) as nat) + old(output)@.skip(width as int),
{
    let mut i: usize = 0;
    while i < width
        invariant
            i <= width,
            bytes@.len() <= width <= old(output)@.len(),
            output@.len() == old(output)@.len(),
            forall|j: int| 0 <= j < i ==> #[trigger] output@[j] == if j < bytes@.len() {
                bytes@[j]
            } else {
                0u8
            },
            forall|j: int| i <= j < old(output)@.len() ==> #[trigger] output@[j] == old(output)@[j],
        decreases width - i,
    {
        let value = if i < bytes.len() {
            bytes[i]
        } else {
            0u8
        };
        output[i] = value;
        i += 1;
    }
    assert(output@ =~= bytes@ + zeros((width - bytes@.len()) as nat) + old(output)@.skip(width as int));
}

impl UserCatalog {
    /// The snapshot of the catalog, built up in order.
    fn snapshot(&self) -> (r: Vec<u8>)
        requires
            self.wf(),
        ensures
            r@ == snapshot_bytes(self@),
    {
        let mut v: Vec<u8> = Vec::new();
        let magic: [u8; 8] = [0x4c, 0x4f, 0x47, 0x55, 0x53, 0x52, 0x30, 0x31];
        assert(magic@ =~= snapshot_magic());
        push_all(&mut v, &magic);
        push_le16(&mut v, SNAPSHOT_VERSION);
        v.push(if self.is_claimed() {
            1u8
        } else {
            0u8
        });
        push_zeros(&mut v, 5);
        let counters = self.counters();
        push_le64(&mut v, counters.0);
        push_le64(&mut v, counters.1);
        push_le64(&mut v, counters.2);
        assert(v@ =~= snapshot_header(self@));
        let ghost header = v@;
        let users = self.user_slots();
        let ghost fu = |u: Option<UserRecord>| user_slot_bytes(u);
        let mut i: usize = 0;
        while i < MAX_USERS
            invariant
                i <= MAX_USERS,
                self.wf(),
                users@ == self@.users,
                fu == (|u: Option<UserRecord>| user_slot_bytes(u)),
                v@ == header + joined(users@.take(i as int), fu),
            decreases MAX_USERS - i,
        {
            let ghost before = v@;
            match &users[i] {
                Some(u) => {
                    v.push(1);
                    push_user(&mut v, u);
                },
                None => {
                    v.push(0);
                    push_zeros(&mut v, 212);
                },
            }
            assert(v@ =~= before + user_slot_bytes(users@[i as int]));
            proof {
                lemma_joined_step(users@, fu, i as int);
            }
            assert(fu(users@[i as int]) == user_slot_bytes(users@[i as int]));
            assert(v@ =~= header + joined(users@.take(i + 1), fu));
            i += 1;
        }
        assert(users@.take(MAX_USERS as int) =~= users@);
        let ghost middle = v@;
        let roles = self.role_slots();
        let ghost fr = |r: Option<RoleRecord>| role_slot_bytes(r);
        let mut j: usize = 0;
        while j < MAX_ROLES
            invariant
                j <= MAX_ROLES,
                self.wf(),
                roles@ == self@.roles,
                fr == (|r: Option<RoleRecord>| role_slot_bytes(r)),
                v@ == middle + joined(roles@.take(j as int), fr),
            decreases MAX_ROLES - j,
        {
            let ghost before = v@;
            match &roles[j] {
                Some(r) => {
                    v.push(1);
                    push_role(&mut v, r);
                },
                None => {
                    v.push(0);
                    push_zeros(&mut v, 158);
                },
            }
            assert(v@ =~= before + role_slot_bytes(roles@[j as int]));
            proof {
                lemma_joined_step(roles@, fr, j as int);
            }
            assert(fr(roles@[j as int]) == role_slot_bytes(roles@[j as int]));
            assert(v@ =~= middle + joined(roles@.take(j + 1), fr));
            j += 1;
        }
        assert(roles@.take(MAX_ROLES as int) =~= roles@);
        proof {
            reveal(snapshot_bytes);
        }
        v
    }

    /// Write the snapshot at the front of `output`, zeros after it up to
    /// `USER_SNAPSHOT_BYTES`, and give its length; `Capacity` when
    /// `output` is shorter than that, leaving it as it was.
    pub fn encode_snapshot(&self, output: &mut [u8]) -> (r: Result<usize, UserError>)
        requires
            self.wf(),
        ensures
            old(output)@.len() < USER_SNAPSHOT_BYTES ==> r == Err::<usize, UserError>(UserError::Capacity)
                && final(output)@ == old(output)@,
            old(output)@.len() >= USER_SNAPSHOT_BYTES ==> r == Ok::<usize, UserError>(SNAPSHOT_USED_BYTES)
                && final(output)@ == snapshot_bytes(self@) + zeros((USER_SNAPSHOT_BYTES - SNAPSHOT_USED_BYTES) as nat)
                + old(output)@.skip(USER_SNAPSHOT_BYTES as int),
    {
        if output.len() < USER_SNAPSHOT_BYTES {
            return Err(UserError::Capacity);
        }
        let bytes = self.snapshot();
        proof {
            lemma_snapshot_len(self@);
        }
        write_front(output, bytes.as_slice(), USER_SNAPSHOT_BYTES);
        Ok(bytes.len())
    }
}

// ----- reading back what was written -----

pub(crate) proof fn lemma_le16_value(x: u16)
    ensures
        le_u16(le16(x), 0) == x,
{
    assert(le16(x)[0] == x % 256 && le16(x)[1] == x / 256);
    assert(x == x % 256 + (x / 256) * 256) by (nonlinear_arith);
}

pub(crate) proof fn lemma_le32_value(x: u32)
    ensures
        le_u32(le32(x), 0) == x,
{
    let s = le32(x);
    assert(s[0] == x % 256);
    assert(s[1] == (x / 256) % 256);
    assert(s[2] == (x / 65536) % 256);
    assert(s[3] == x / 16777216);
    assert(x == x % 256 + ((x / 256) % 256) * 256 + ((x / 65536) % 256) * 65536 + (x / 16777216) * 16777216)
        by (nonlinear_arith);
}

/// The value of the little-endian bytes of `x` placed at `at`.
pub(crate) proof fn lemma_le32_at(s: Seq<u8>, at: int, x: u32)
    requires
        0 <= at,
        at + 4 <= s.len(),
        s.subrange(at, at + 4) == le32(x),
    ensures
        le_u32(s, at) == x,
{
    lemma_le32_value(x);
    let t = s.subrange(at, at + 4);
    assert(s[at] == t[0] && s[at + 1] == t[1] && s[at + 2] == t[2] && s[at + 3] == t[3]);
}

pub(crate) proof fn lemma_le64_at(s: Seq<u8>, at: int, x: u64)
    requires
        0 <= at,
        at + 8 <= s.len(),
        s.subrange(at, at + 8) == le64(x),
    ensures
        le_u64(s, at) == x,
{
    let low = (x % 0x1_0000_0000) as u32;
    let high = (x / 0x1_0000_0000) as u32;
    assert(s.subrange(at, at + 4) =~= le32(low)) by {
        assert forall|i: int| 0 <= i < 4 implies s.subrange(at, at + 4)[i] == le32(low)[i] by {
            assert(s.subrange(at, at + 8)[i] == le64(x)[i]);
        }
    }
    assert(s.subrange(at + 4, at + 8) =~= le32(high)) by {
        assert forall|i: int| 0 <= i < 4 implies s.subrange(at + 4, at + 8)[i] == le32(high)[i] by {
            assert(s.subrange(at, at + 8)[i + 4] == le64(x)[i + 4]);
        }
    }
    lemma_le32_at(s, at, low);
    lemma_le32_at(s, at + 4, high);
    assert(x == x % 0x1_0000_0000 + (x / 0x1_0000_0000) * 0x1_0000_0000) by (nonlinear_arith);
}

pub(crate) proof fn lemma_joined_len<T>(s: Seq<T>, f: spec_fn(T) -> Seq<u8>, w: nat)
    requires
        forall|x: T| #[trigger] f(x).len() == w,
    ensures
        joined(s, f).len() == w * s.len(),
    decreases s.len(),
{
    if s.len() > 0 {
        lemma_joined_len(s.drop_first(), f, w);
        let n = s.len();
        assert(w + w * (n - 1) == w * n) by (nonlinear_arith);
    }
}

pub(crate) proof fn lemma_joined_at<T>(s: Seq<T>, f: spec_fn(T) -> Seq<u8>, w: nat, j: int)
    requires
        forall|x: T| #[trigger] f(x).len() == w,
        0 <= j < s.len(),
    ensures
        joined(s, f).len() == w * s.len(),
        w * j + w <= w * s.len(),
        joined(s, f).subrange(w * j, w * j + w) == f(s[j]),
    decreases j,
{
    lemma_joined_len(s, f, w);
    let n = s.len();
    assert(w * j + w <= w * n) by (nonlinear_arith)
        requires
            0 <= j < n,
    ;
    let rest = s.drop_first();
    lemma_joined_len(rest, f, w);
    assert(joined(s, f) == f(s[0]) + joined(rest, f));
    if j == 0 {
        assert(w * j == 0) by (nonlinear_arith)
            requires
                j == 0,
        ;
        assert(joined(s, f).subrange(0, w as int) =~= f(s[0]));
    } else {
        lemma_joined_at(rest, f, w, j - 1);
        assert(w * (j - 1) == w * j - w) by (nonlinear_arith);
        assert(rest[j - 1] == s[j]);
        assert(joined(s, f).subrange(w * j, w * j + w) =~= joined(rest, f).subrange(w * (j - 1), w * (j - 1) + w));
        assert(joined(rest, f).subrange(w * (j - 1), w * (j - 1) + w) == f(rest[j - 1]));
    }
}

/// An account record the snapshot keeps exactly: valid identifier and
/// home, a non-zero lineage counter, and grants that are roles or empty.
pub open spec fn user_restorable(u: UserRecord) -> bool {
    &&& user_record_wf(u)
    &&& u.id.valid()
    &&& u.home.valid()
    &&& u.next_lineage != 0
    &&& forall|j: int|
        0 <= j < MAX_ROLE_GRANTS ==> (#[trigger] u.roles@[j]).valid() || u.roles@[j] == (RoleId {
            value: 0,
            generation: 0,
        })
}

/// A role record the snapshot keeps exactly: a valid identifier, and
/// templates with known rights and roots whose halves are both zero or
/// both not.
pub open spec fn role_restorable(r: RoleRecord) -> bool {
    &&& role_record_wf(r)
    &&& r.id.valid()
    &&& forall|t: int|
        0 <= t < MAX_ROLE_TEMPLATES ==> match #[trigger] r.templates@[t] {
            Some(x) => x.rights.valid() && (x.root.object != 0) == (x.root.generation != 0),
            None => true,
        }
}

/// Where the fields of an account record lie in its bytes.
proof fn lemma_user_layout(u: UserRecord)
    requires
        user_record_wf(u),
    ensures
        user_bytes(u).len() == 212,
        user_bytes(u).subrange(0, 8) == le64(u.id.value),
        user_bytes(u).subrange(8, 12) == le32(u.id.generation),
        user_bytes(u)[12] == u.name@.len(),
        user_bytes(u).subrange(13, 45) == u.name.field(),
        user_bytes(u)[45] == u.verifier.version,
        user_bytes(u).subrange(46, 62) == u.verifier.salt@,
        user_bytes(u).subrange(62, 94) == u.verifier.output@,
        user_bytes(u).subrange(94, 102) == le64(u.home.object),
        user_bytes(u).subrange(102, 106) == le32(u.home.generation),
        user_bytes(u)[106] == u.role_count,
        user_bytes(u)[107] == flag(u.admin),
        user_bytes(u).subrange(108, 204) == joined(u.roles@, |id: RoleId| role_id_bytes(id)),
        user_bytes(u).subrange(204, 212) == le64(u.next_lineage),
{
    let fi = |id: RoleId| role_id_bytes(id);
    crate::user::lemma_user_field_width(u.name);
    crate::user::lemma_user_name_field(u.name);
    lemma_joined_len(u.roles@, fi, 12);
    let a = le64(u.id.value) + le32(u.id.generation) + seq![u.name@.len() as u8] + u.name.field();
    let b = seq![u.verifier.version] + u.verifier.salt@ + u.verifier.output@;
    let c = le64(u.home.object) + le32(u.home.generation) + seq![u.role_count as u8, flag(u.admin)];
    let d = joined(u.roles@, fi) + le64(u.next_lineage);
    let w = user_bytes(u);
    assert(w =~= a + b + c + d);
    assert(a.len() == 45 && b.len() == 49 && c.len() == 14 && d.len() == 104);
    assert(a.subrange(0, 8) =~= le64(u.id.value));
    assert(a.subrange(8, 12) =~= le32(u.id.generation));
    assert(a.subrange(13, 45) =~= u.name.field());
    assert(b.subrange(1, 17) =~= u.verifier.salt@);
    assert(b.subrange(17, 49) =~= u.verifier.output@);
    assert(c.subrange(0, 8) =~= le64(u.home.object));
    assert(c.subrange(8, 12) =~= le32(u.home.generation));
    assert(d.subrange(0, 96) =~= joined(u.roles@, fi));
    assert(d.subrange(96, 104) =~= le64(u.next_lineage));
    assert(w.subrange(0, 45) =~= a);
    assert(w.subrange(45, 94) =~= b);
    assert(w.subrange(94, 108) =~= c);
    assert(w.subrange(108, 212) =~= d);
    assert(w.subrange(0, 8) =~= le64(u.id.value));
    assert(w.subrange(8, 12) =~= le32(u.id.generation));
    assert(w.subrange(13, 45) =~= u.name.field());
    assert(w.subrange(46, 62) =~= u.verifier.salt@);
    assert(w.subrange(62, 94) =~= u.verifier.output@);
    assert(w.subrange(94, 102) =~= le64(u.home.object));
    assert(w.subrange(102, 106) =~= le32(u.home.generation));
    assert(w.subrange(108, 204) =~= joined(u.roles@, fi));
    assert(w.subrange(204, 212) =~= le64(u.next_lineage));
}

proof fn lemma_user_round_trip(u: UserRecord)
    requires
        user_restorable(u),
    ensures
        user_bytes(u).len() == 212,
        user_from_bytes(user_bytes(u)) == Some(Ok::<UserRecord, UserError>(u)),
{
    let w = user_bytes(u);
    let fi = |id: RoleId| role_id_bytes(id);
    lemma_user_layout(u);
    crate::user::lemma_user_name_field(u.name);
    let grants = joined(u.roles@, fi);
    lemma_le64_at(w, 0, u.id.value);
    lemma_le32_at(w, 8, u.id.generation);
    lemma_le64_at(w, 94, u.home.object);
    lemma_le32_at(w, 102, u.home.generation);
    lemma_le64_at(w, 204, u.next_lineage);
    assert(user_id_in(w) == u.id);
    assert(home_in(w) == u.home);
    assert(name_in(w, 12) =~= u.name@) by {
        assert forall|i: int| 0 <= i < u.name@.len() implies name_in(w, 12)[i] == u.name@[i] by {
            assert(w.subrange(13, 45)[i] == u.name.field()[i]);
            assert(u.name.field().subrange(0, u.name@.len() as int)[i] == u.name.field()[i]);
        }
    }
    crate::user::lemma_user_name_of(u.name);
    lemma_array_of(u.verifier.salt);
    lemma_array_of(u.verifier.output);
    assert forall|j: int| 0 <= j < MAX_ROLE_GRANTS implies #[trigger] granted_id_in(w, 108 + 12 * j) == u.roles@[j] by {
        lemma_grant_at(u, j);
    }
    assert(Seq::new(MAX_ROLE_GRANTS as nat, |j: int| granted_id_in(w, 108 + 12 * j)) =~= u.roles@);
    lemma_array_of(u.roles);
}

#[verifier::spinoff_prover]
proof fn lemma_grant_at(u: UserRecord, j: int)
    requires
        user_restorable(u),
        0 <= j < MAX_ROLE_GRANTS,
    ensures
        granted_id_in(user_bytes(u), 108 + 12 * j) == u.roles@[j],
{
    let w = user_bytes(u);
    let fi = |id: RoleId| role_id_bytes(id);
    lemma_user_layout(u);
    let grants = joined(u.roles@, fi);
    lemma_joined_at(u.roles@, fi, 12, j);
    let at = 108 + 12 * j;
    assert(grants.subrange(12 * j, 12 * j + 12) == role_id_bytes(u.roles@[j]));
    assert(w.subrange(at, at + 8) =~= le64(u.roles@[j].value)) by {
        assert forall|i: int| 0 <= i < 8 implies w.subrange(at, at + 8)[i] == le64(u.roles@[j].value)[i] by {
            assert(w.subrange(108, 204)[12 * j + i] == grants[12 * j + i]);
            assert(grants.subrange(12 * j, 12 * j + 12)[i] == role_id_bytes(u.roles@[j])[i]);
        }
    }
    assert(w.subrange(at + 8, at + 12) =~= le32(u.roles@[j].generation)) by {
        assert forall|i: int| 0 <= i < 4 implies w.subrange(at + 8, at + 12)[i] == le32(u.roles@[j].generation)[i] by {
            assert(w.subrange(108, 204)[12 * j + 8 + i] == grants[12 * j + 8 + i]);
            assert(grants.subrange(12 * j, 12 * j + 12)[8 + i] == role_id_bytes(u.roles@[j])[8 + i]);
        }
    }
    lemma_le64_at(w, at, u.roles@[j].value);
    lemma_le32_at(w, at + 8, u.roles@[j].generation);
}

/// Where the fields of a role record lie in its bytes.
proof fn lemma_role_layout(r: RoleRecord)
    requires
        role_record_wf(r),
    ensures
        role_bytes(r).len() == 158,
        role_bytes(r).subrange(0, 8) == le64(r.id.value),
        role_bytes(r).subrange(8, 12) == le32(r.id.generation),
        role_bytes(r)[12] == r.name@.len(),
        role_bytes(r).subrange(13, 45) == r.name.field(),
        role_bytes(r)[45] == r.template_count,
        role_bytes(r).subrange(46, 158) == joined(r.templates@, |t: Option<CapabilityTemplate>| template_bytes(t)),
{
    let ft = |t: Option<CapabilityTemplate>| template_bytes(t);
    crate::user::lemma_role_field_width(r.name);
    crate::user::lemma_role_name_field(r.name);
    assert forall|t: Option<CapabilityTemplate>| #[trigger] ft(t).len() == 14 by {}
    lemma_joined_len(r.templates@, ft, 14);
    let a = le64(r.id.value) + le32(r.id.generation) + seq![r.name@.len() as u8] + r.name.field();
    let c = joined(r.templates@, ft);
    let w = role_bytes(r);
    assert(w =~= a + seq![r.template_count as u8] + c);
    assert(a.len() == 45 && c.len() == 112);
    assert(a.subrange(0, 8) =~= le64(r.id.value));
    assert(a.subrange(8, 12) =~= le32(r.id.generation));
    assert(a.subrange(13, 45) =~= r.name.field());
    assert(w.subrange(0, 45) =~= a);
    assert(w.subrange(46, 158) =~= c);
    assert(w.subrange(0, 8) =~= le64(r.id.value));
    assert(w.subrange(8, 12) =~= le32(r.id.generation));
    assert(w.subrange(13, 45) =~= r.name.field());
}

#[verifier::spinoff_prover]
proof fn lemma_template_at(r: RoleRecord, t: int)
    requires
        role_restorable(r),
        0 <= t < MAX_ROLE_TEMPLATES,
    ensures
        template_slot_ok(role_bytes(r), t),
        template_in(role_bytes(r), 46 + 14 * t) == r.templates@[t],
{
    let w = role_bytes(r);
    let ft = |x: Option<CapabilityTemplate>| template_bytes(x);
    lemma_role_layout(r);
    assert forall|x: Option<CapabilityTemplate>| #[trigger] ft(x).len() == 14 by {}
    let all = joined(r.templates@, ft);
    lemma_joined_at(r.templates@, ft, 14, t);
    let at = 46 + 14 * t;
    let tb = template_bytes(r.templates@[t]);
    assert(all.subrange(14 * t, 14 * t + 14) == tb);
    assert forall|i: int| 0 <= i < 14 implies w[at + i] == tb[i] by {
        assert(w.subrange(46, 158)[14 * t + i] == all[14 * t + i]);
        assert(all.subrange(14 * t, 14 * t + 14)[i] == tb[i]);
    }
    let (object, generation) = match r.templates@[t] {
        Some(x) => (x.root.object, x.root.generation),
        None => (0u64, 0u32),
    };
    assert(tb.subrange(1, 9) =~= le64(object));
    assert(tb.subrange(9, 13) =~= le32(generation));
    assert(w.subrange(at + 1, at + 9) =~= le64(object)) by {
        assert forall|i: int| 0 <= i < 8 implies w.subrange(at + 1, at + 9)[i] == le64(object)[i] by {
            assert(w[at + 1 + i] == tb[1 + i]);
            assert(tb.subrange(1, 9)[i] == tb[1 + i]);
        }
    }
    assert(w.subrange(at + 9, at + 13) =~= le32(generation)) by {
        assert forall|i: int| 0 <= i < 4 implies w.subrange(at + 9, at + 13)[i] == le32(generation)[i] by {
            assert(w[at + 9 + i] == tb[9 + i]);
            assert(tb.subrange(9, 13)[i] == tb[9 + i]);
        }
    }
    lemma_le64_at(w, at + 1, object);
    lemma_le32_at(w, at + 9, generation);
    assert(w[at] == tb[0]);
    assert(w[at + 13] == tb[13]);
}

proof fn lemma_role_round_trip(r: RoleRecord)
    requires
        role_restorable(r),
    ensures
        role_bytes(r).len() == 158,
        role_from_bytes(role_bytes(r)) == Some(Ok::<RoleRecord, UserError>(r)),
{
    let w = role_bytes(r);
    lemma_role_layout(r);
    crate::user::lemma_role_name_field(r.name);
    lemma_le64_at(w, 0, r.id.value);
    lemma_le32_at(w, 8, r.id.generation);
    assert(role_record_id_in(w) == r.id);
    assert(name_in(w, 12) =~= r.name@) by {
        assert forall|i: int| 0 <= i < r.name@.len() implies name_in(w, 12)[i] == r.name@[i] by {
            assert(w.subrange(13, 45)[i] == r.name.field()[i]);
            assert(r.name.field().subrange(0, r.name@.len() as int)[i] == r.name.field()[i]);
        }
    }
    crate::user::lemma_role_name_of(r.name);
    assert forall|t: int| 0 <= t < MAX_ROLE_TEMPLATES implies #[trigger] template_slot_ok(w, t) by {
        lemma_template_at(r, t);
    }
    assert forall|t: int| 0 <= t < MAX_ROLE_TEMPLATES implies #[trigger] template_in(w, 46 + 14 * t) == r.templates@[t] by {
        lemma_template_at(r, t);
    }
    assert(Seq::new(MAX_ROLE_TEMPLATES as nat, |t: int| template_in(w, 46 + 14 * t)) =~= r.templates@);
    lemma_array_of(r.templates);
}

/// A catalog its snapshot keeps exactly: well formed, with non-zero
/// counters and every record restorable.
pub open spec fn snapshot_restorable(c: CatalogState) -> bool {
    &&& catalog_wf(c)
    &&& c.next_user != 0
    &&& c.next_role != 0
    &&& c.next_lineage != 0
    &&& forall|i: int| 0 <= i < MAX_USERS && (#[trigger] c.users[i]) is Some ==> user_restorable(c.users[i].unwrap())
    &&& forall|i: int| 0 <= i < MAX_ROLES && (#[trigger] c.roles[i]) is Some ==> role_restorable(c.roles[i].unwrap())
}

proof fn lemma_slot_in(c: CatalogState, k: int, user: bool)
    requires
        catalog_wf(c),
        0 <= k < (if user {
            MAX_USERS
        } else {
            MAX_ROLES
        }),
    ensures
        snapshot_bytes(c).len() == SNAPSHOT_USED_BYTES,
        user ==> snapshot_bytes(c).subrange(
            SNAPSHOT_HEADER_BYTES + USER_SLOT_BYTES * k,
            SNAPSHOT_HEADER_BYTES + USER_SLOT_BYTES * k + USER_SLOT_BYTES,
        ) == user_slot_bytes(c.users[k]),
        !user ==> snapshot_bytes(c).subrange(
            ROLE_SLOTS_AT + ROLE_SLOT_BYTES * k,
            ROLE_SLOTS_AT + ROLE_SLOT_BYTES * k + ROLE_SLOT_BYTES,
        ) == role_slot_bytes(c.roles[k]),
{
    reveal(snapshot_bytes);
    lemma_snapshot_len(c);
    lemma_record_widths();
    let fu = |u: Option<UserRecord>| user_slot_bytes(u);
    let fr = |r: Option<RoleRecord>| role_slot_bytes(r);
    let h = snapshot_header(c);
    let ju = joined(c.users, fu);
    let jr = joined(c.roles, fr);
    let input = snapshot_bytes(c);
    assert(input == h + ju + jr);
    lemma_joined_len(c.users, fu, USER_SLOT_BYTES as nat);
    lemma_joined_len(c.roles, fr, ROLE_SLOT_BYTES as nat);
    if user {
        lemma_joined_at(c.users, fu, USER_SLOT_BYTES as nat, k);
        let at = SNAPSHOT_HEADER_BYTES + USER_SLOT_BYTES * k;
        assert(input.subrange(at, at + USER_SLOT_BYTES) =~= ju.subrange(USER_SLOT_BYTES * k, USER_SLOT_BYTES * k
            + USER_SLOT_BYTES));
    } else {
        lemma_joined_at(c.roles, fr, ROLE_SLOT_BYTES as nat, k);
        let at = ROLE_SLOTS_AT + ROLE_SLOT_BYTES * k;
        assert(input.subrange(at, at + ROLE_SLOT_BYTES) =~= jr.subrange(ROLE_SLOT_BYTES * k, ROLE_SLOT_BYTES * k
            + ROLE_SLOT_BYTES));
    }
}

#[verifier::spinoff_prover]
#[verifier::rlimit(40)]
proof fn lemma_user_slot_decodes(c: CatalogState, k: int)
    requires
        snapshot_restorable(c),
        0 <= k < MAX_USERS,
    ensures
        user_slot_at(snapshot_bytes(c), SNAPSHOT_HEADER_BYTES + USER_SLOT_BYTES * k) == Some(
            Ok::<Option<UserRecord>, UserError>(c.users[k]),
        ),
{
    let input = snapshot_bytes(c);
    lemma_slot_in(c, k, true);
    let at = SNAPSHOT_HEADER_BYTES + USER_SLOT_BYTES * k;
    let slot = user_slot_bytes(c.users[k]);
    assert(input[at] == slot[0]) by {
        assert(input.subrange(at, at + USER_SLOT_BYTES)[0] == slot[0]);
    }
    match c.users[k] {
        Some(u) => {
            lemma_user_round_trip(u);
            assert(window(input, at + 1, 212) =~= user_bytes(u)) by {
                assert forall|i: int| 0 <= i < 212 implies window(input, at + 1, 212)[i] == user_bytes(u)[i] by {
                    assert(input.subrange(at, at + USER_SLOT_BYTES)[1 + i] == slot[1 + i]);
                }
            }
        },
        None => {},
    }
}

#[verifier::spinoff_prover]
#[verifier::rlimit(40)]
proof fn lemma_role_slot_decodes(c: CatalogState, k: int)
    requires
        snapshot_restorable(c),
        0 <= k < MAX_ROLES,
    ensures
        role_slot_at(snapshot_bytes(c), ROLE_SLOTS_AT + ROLE_SLOT_BYTES * k) == Some(
            Ok::<Option<RoleRecord>, UserError>(c.roles[k]),
        ),
{
    let input = snapshot_bytes(c);
    lemma_slot_in(c, k, false);
    let at = ROLE_SLOTS_AT + ROLE_SLOT_BYTES * k;
    let slot = role_slot_bytes(c.roles[k]);
    assert(input[at] == slot[0]) by {
        assert(input.subrange(at, at + ROLE_SLOT_BYTES)[0] == slot[0]);
    }
    match c.roles[k] {
        Some(r) => {
            lemma_role_round_trip(r);
            assert(window(input, at + 1, 158) =~= role_bytes(r)) by {
                assert forall|i: int| 0 <= i < 158 implies window(input, at + 1, 158)[i] == role_bytes(r)[i] by {
                    assert(input.subrange(at, at + ROLE_SLOT_BYTES)[1 + i] == slot[1 + i]);
                }
            }
        },
        None => {},
    }
}

proof fn lemma_users_from(c: CatalogState, k: int)
    requires
        snapshot_restorable(c),
        0 <= k <= MAX_USERS,
    ensures
        users_from(snapshot_bytes(c), k) == Some(Ok::<Seq<Option<UserRecord>>, UserError>(c.users.subrange(k, MAX_USERS as int))),
    decreases MAX_USERS - k,
{
    if k < MAX_USERS {
        lemma_users_from(c, k + 1);
        lemma_user_slot_decodes(c, k);
        assert(seq![c.users[k]] + c.users.subrange(k + 1, MAX_USERS as int) =~= c.users.subrange(k, MAX_USERS as int));
    } else {
        assert(c.users.subrange(k, MAX_USERS as int) =~= Seq::<Option<UserRecord>>::empty());
    }
}

proof fn lemma_roles_from(c: CatalogState, k: int)
    requires
        snapshot_restorable(c),
        0 <= k <= MAX_ROLES,
    ensures
        roles_from(snapshot_bytes(c), k) == Some(Ok::<Seq<Option<RoleRecord>>, UserError>(c.roles.subrange(k, MAX_ROLES as int))),
    decreases MAX_ROLES - k,
{
    if k < MAX_ROLES {
        lemma_roles_from(c, k + 1);
        lemma_role_slot_decodes(c, k);
        assert(seq![c.roles[k]] + c.roles.subrange(k + 1, MAX_ROLES as int) =~= c.roles.subrange(k, MAX_ROLES as int));
    } else {
        assert(c.roles.subrange(k, MAX_ROLES as int) =~= Seq::<Option<RoleRecord>>::empty());
    }
}

/// The header of a snapshot holds the magic, the version, the claim
/// and the counters.
proof fn lemma_header_in(c: CatalogState)
    requires
        catalog_wf(c),
    ensures
        snapshot_bytes(c).len() == SNAPSHOT_USED_BYTES,
        snapshot_bytes(c).subrange(0, 8) == snapshot_magic(),
        le_u16(snapshot_bytes(c), 8) == SNAPSHOT_VERSION,
        snapshot_bytes(c)[10] == flag(c.claimed),
        le_u64(snapshot_bytes(c), 16) == c.next_user,
        le_u64(snapshot_bytes(c), 24) == c.next_role,
        le_u64(snapshot_bytes(c), 32) == c.next_lineage,
{
    lemma_snapshot_len(c);
    reveal(snapshot_bytes);
    let input = snapshot_bytes(c);
    let h = snapshot_header(c);
    let rest = joined(c.users, |u: Option<UserRecord>| user_slot_bytes(u)) + joined(
        c.roles,
        |r: Option<RoleRecord>| role_slot_bytes(r),
    );
    assert(input =~= h + rest);
    assert(input.subrange(0, 8) =~= snapshot_magic());
    assert(input.subrange(8, 10) =~= le16(SNAPSHOT_VERSION));
    assert(input.subrange(16, 24) =~= le64(c.next_user));
    assert(input.subrange(24, 32) =~= le64(c.next_role));
    assert(input.subrange(32, 40) =~= le64(c.next_lineage));
    assert(input[10] == flag(c.claimed));
    lemma_le16_value(SNAPSHOT_VERSION);
    assert(le_u16(input, 8) == le_u16(le16(SNAPSHOT_VERSION), 0)) by {
        assert(input.subrange(8, 10)[0] == input[8]);
        assert(input.subrange(8, 10)[1] == input[9]);
    }
    lemma_le64_at(input, 16, c.next_user);
    lemma_le64_at(input, 24, c.next_role);
    lemma_le64_at(input, 32, c.next_lineage);
}

/// Restoring a snapshot gives back the catalog it was taken of: its
/// claim, counters, accounts and roles, and no sessions.
pub proof fn lemma_snapshot_round_trip(c: CatalogState)
    requires
        snapshot_restorable(c),
    ensures
        snapshot_decode(snapshot_bytes(c)) == Some(
            Ok::<CatalogState, UserError>(
                without_sessions(c.claimed, (c.next_user, c.next_role, c.next_lineage), c.users, c.roles),
            ),
        ),
{
    lemma_users_from(c, 0);
    lemma_roles_from(c, 0);
    assert(c.users.subrange(0, MAX_USERS as int) =~= c.users);
    assert(c.roles.subrange(0, MAX_ROLES as int) =~= c.roles);
    lemma_header_in(c);
}

/// A store that hands back the snapshot it was given restores the saved
/// catalog without its sessions; a store that keeps none starts the
/// catalog afresh.
pub proof fn lemma_store_round_trip(before: CatalogState, saved: CatalogState, bytes: Seq<u8>)
    requires
        snapshot_restorable(saved),
        bytes.len() >= SNAPSHOT_USED_BYTES,
        bytes.take(SNAPSHOT_USED_BYTES as int) == snapshot_bytes(saved),
    ensures
        load_out(before, Ok(SNAPSHOT_USED_BYTES), bytes) == (
            without_sessions(saved.claimed, (saved.next_user, saved.next_role, saved.next_lineage), saved.users, saved.roles),
            Ok::<(), UserError>(()),
        ),
        load_out(before, Err(UserError::NotFound), bytes) == (empty_catalog(), Ok::<(), UserError>(())),
{
    lemma_snapshot_round_trip(saved);
}

/// A restored catalog holds no session: every session handle is stale.
pub proof fn lemma_restore_ends_sessions(
    claimed: bool,
    counters: (u64, u64, u64),
    users: Seq<Option<UserRecord>>,
    roles: Seq<Option<RoleRecord>>,
    session: SessionHandle,
    capability: NamespaceCapabilityHandle,
)
    ensures
        capability_out(without_sessions(claimed, counters, users, roles), session, capability)
            == Err::<(NamespaceRoot, NamespaceRights), UserError>(UserError::Stale),
{
}

proof fn lemma_record_widths()
    ensures
        forall|u: UserRecord| #[trigger] user_bytes(u).len() == 212,
        forall|r: RoleRecord| #[trigger] role_bytes(r).len() == 158,
        forall|u: Option<UserRecord>| #[trigger] user_slot_bytes(u).len() == USER_SLOT_BYTES,
        forall|r: Option<RoleRecord>| #[trigger] role_slot_bytes(r).len() == ROLE_SLOT_BYTES,
{
    let fi = |id: RoleId| role_id_bytes(id);
    let ft = |t: Option<CapabilityTemplate>| template_bytes(t);
    assert forall|id: RoleId| #[trigger] fi(id).len() == 12 by {}
    assert forall|t: Option<CapabilityTemplate>| #[trigger] ft(t).len() == 14 by {}
    assert forall|u: UserRecord| #[trigger] user_bytes(u).len() == 212 by {
        crate::user::lemma_user_field_width(u.name);
        lemma_joined_len(u.roles@, fi, 12);
    }
    assert forall|r: RoleRecord| #[trigger] role_bytes(r).len() == 158 by {
        crate::user::lemma_role_field_width(r.name);
        lemma_joined_len(r.templates@, ft, 14);
    }
}

/// A snapshot takes `SNAPSHOT_USED_BYTES`.
pub proof fn lemma_snapshot_len(c: CatalogState)
    requires
        c.users.len() == MAX_USERS,
        c.roles.len() == MAX_ROLES,
    ensures
        snapshot_bytes(c).len() == SNAPSHOT_USED_BYTES,
        snapshot_header(c).len() == SNAPSHOT_HEADER_BYTES,
{
    reveal(snapshot_bytes);
    lemma_record_widths();
    lemma_joined_len(c.users, |u: Option<UserRecord>| user_slot_bytes(u), USER_SLOT_BYTES as nat);
    lemma_joined_len(c.roles, |r: Option<RoleRecord>| role_slot_bytes(r), ROLE_SLOT_BYTES as nat);
}

/// An account keeps its name and password across a snapshot: after the
/// catalog is restored from its own snapshot, it is claimed, the name
/// still finds the account, the account accepts the same password, and a
/// login with it is not refused for bad credentials.
pub proof fn lemma_restored_account_keeps_password(
    c: CatalogState,
    user: UserId,
    name: Seq<u8>,
    password: Seq<u8>,
)
    requires
        snapshot_restorable(c),
        c.claimed,
        name_valid(name, USER_MAX_USER_NAME_BYTES as int),
        password_accepted(c, user, password),
        user_named(c.users, name, 0) == user_with_id(c.users, user, 0),
    ensures
        snapshot_decode(snapshot_bytes(c)) matches Some(Ok(restored)) && {
            &&& restored.claimed
            &&& user_named(restored.users, name, 0) == user_with_id(restored.users, user, 0)
            &&& password_accepted(restored, user, password)
            &&& login_out(restored, name, password).1 != Err::<(UserId, SessionHandle), UserError>(
                UserError::BadCredentials,
            )
        },
{
    lemma_snapshot_round_trip(c);
    let restored = without_sessions(c.claimed, (c.next_user, c.next_role, c.next_lineage), c.users, c.roles);
    assert(restored.users == c.users && restored.claimed);
    assert(password_accepted(restored, user, password));
    crate::catalog_laws::lemma_accepted_password_logs_in(restored, user, name, password);
    assert(user_named(restored.users, name, 0) is Some);
}

} // verus!

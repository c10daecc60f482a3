use logos::user::UserError;
use logos::user_abi::{
    NamespaceCapabilityHandle, NamespaceRights, NamespaceRoot, UserOperation, UserRequest, UserStatus,
    RIGHT_DERIVE, RIGHT_READ, RIGHT_WRITE,
};
use logos::user_catalog::{EntropySource, UserCatalog};
use logos::user_service::UserService;

struct Entropy(u8);

impl EntropySource for Entropy {
    fn fill(&mut self, output: &mut [u8]) -> Result<(), UserError> {
        for byte in output {
            *byte = self.0;
            self.0 = self.0.wrapping_add(1);
        }
        Ok(())
    }
}

struct Broken;

impl EntropySource for Broken {
    fn fill(&mut self, _output: &mut [u8]) -> Result<(), UserError> {
        Err(UserError::Entropy)
    }
}

fn root(value: u64) -> NamespaceRoot {
    NamespaceRoot::new(value, 1).unwrap()
}

#[test]
fn claim_is_one_shot_and_login_verifies_argon2id_passwords() {
    let mut catalog = UserCatalog::new();
    let mut entropy = Entropy(1);
    assert_eq!(catalog.login(b"admin", b"password"), Err(UserError::NotClaimed));
    catalog.claim(b"admin", b"correct horse", root(1), &mut entropy).unwrap();
    assert!(catalog.is_claimed());
    assert_eq!(
        catalog.claim(b"other", b"password", root(2), &mut entropy),
        Err(UserError::AlreadyClaimed)
    );
    let (_, session) = catalog.login(b"admin", b"correct horse").unwrap();
    assert_eq!(catalog.login(b"admin", b"wrong"), Err(UserError::BadCredentials));
    catalog.logout(session).unwrap();
    assert_eq!(
        catalog.capability(session, NamespaceCapabilityHandle::empty()),
        Err(UserError::Revoked)
    );
}

#[test]
fn namespace_capabilities_only_attenuate_and_revoke_descendants() {
    let mut catalog = UserCatalog::new();
    let mut entropy = Entropy(7);
    catalog.claim(b"admin", b"password", root(3), &mut entropy).unwrap();
    let (_, session) = catalog.login(b"admin", b"password").unwrap();
    let parent = catalog
        .attach_capability(session, root(3), NamespaceRights(RIGHT_READ | RIGHT_WRITE | RIGHT_DERIVE))
        .unwrap();
    let child = catalog.derive(session, parent, root(3), NamespaceRights(RIGHT_READ)).unwrap();
    assert_eq!(
        catalog.derive(session, child, root(3), NamespaceRights(RIGHT_WRITE)),
        Err(UserError::Unauthorized)
    );
    catalog.revoke_capability(session, parent).unwrap();
    assert_eq!(catalog.capability(session, child), Err(UserError::Revoked));
}

#[test]
fn administrative_name_and_password_changes_take_effect_without_persisting_sessions() {
    let mut catalog = UserCatalog::new();
    let mut entropy = Entropy(19);
    catalog.claim(b"admin", b"old-password", root(5), &mut entropy).unwrap();
    let (user, session) = catalog.login(b"admin", b"old-password").unwrap();
    catalog.rename_user(user, b"administrator").unwrap();
    assert_eq!(catalog.login(b"admin", b"old-password"), Err(UserError::NotFound));
    assert!(catalog.login(b"administrator", b"old-password").is_ok());
    catalog.set_password(user, b"new-password", &mut entropy).unwrap();
    assert_eq!(catalog.login(b"administrator", b"old-password"), Err(UserError::BadCredentials));
    assert!(catalog.login(b"administrator", b"new-password").is_ok());
    catalog.logout(session).unwrap();
}

#[test]
fn claim_response_does_not_create_a_session() {
    let mut service = UserService::new(Entropy(23));
    let mut request = UserRequest::new(UserOperation::Claim, 1);
    assert!(request.set_name(b"admin"));
    assert!(request.set_password(b"password"));
    let response = service.handle(request);
    assert_eq!(response.status, UserStatus::Success);
    assert!(response.user.is_valid());
    assert!(!response.session.is_valid());
    assert!(service.catalog().is_claimed());
}

// ----- further cases -----

#[test]
fn login_grants_role_capabilities_in_order() {
    let mut catalog = UserCatalog::new();
    let mut entropy = Entropy(31);
    catalog.claim(b"admin", b"password", root(8), &mut entropy).unwrap();
    let (_, session) = catalog.login(b"admin", b"password").unwrap();
    let (first, first_root, first_rights) = catalog.first_capability(session).unwrap();
    assert_eq!(first_root, root(8));
    assert_eq!(first_rights, NamespaceRights(RIGHT_READ | RIGHT_WRITE | RIGHT_DERIVE));
    assert_eq!(catalog.capability(session, first), Ok((root(8), first_rights)));
    let second = NamespaceCapabilityHandle::new(1, 1).unwrap();
    assert_eq!(
        catalog.capability(session, second),
        Ok((root(8), NamespaceRights(RIGHT_READ | RIGHT_WRITE)))
    );
}

#[test]
fn revocation_reaches_grandchildren_but_not_siblings() {
    let mut catalog = UserCatalog::new();
    let mut entropy = Entropy(41);
    catalog.claim(b"admin", b"password", root(9), &mut entropy).unwrap();
    let (_, session) = catalog.login(b"admin", b"password").unwrap();
    let all = NamespaceRights(RIGHT_READ | RIGHT_WRITE | RIGHT_DERIVE);
    let parent = catalog.attach_capability(session, root(9), all).unwrap();
    let sibling = catalog.attach_capability(session, root(9), all).unwrap();
    let child = catalog.derive(session, parent, root(9), all).unwrap();
    let grandchild = catalog.derive(session, child, root(9), NamespaceRights(RIGHT_READ)).unwrap();
    assert_eq!(
        catalog.derive(session, child, root(10), NamespaceRights(RIGHT_READ)),
        Err(UserError::Unauthorized)
    );
    catalog.revoke_capability(session, child).unwrap();
    assert_eq!(catalog.capability(session, grandchild), Err(UserError::Revoked));
    assert_eq!(catalog.capability(session, child), Err(UserError::Revoked));
    assert_eq!(catalog.capability(session, parent), Ok((root(9), all)));
    assert_eq!(catalog.capability(session, sibling), Ok((root(9), all)));
    assert_eq!(
        catalog.derive(session, child, root(9), NamespaceRights(RIGHT_READ)),
        Err(UserError::Stale)
    );
}

#[test]
fn accounts_need_a_claimed_catalog_and_unique_names() {
    let mut catalog = UserCatalog::new();
    let mut entropy = Entropy(3);
    assert_eq!(
        catalog.create_user(b"bob", b"password", root(2), &mut entropy),
        Err(UserError::NotClaimed)
    );
    assert_eq!(
        catalog.claim(b"Admin", b"password", root(1), &mut entropy),
        Err(UserError::InvalidName)
    );
    assert_eq!(catalog.claim(b"admin", b"", root(1), &mut entropy), Err(UserError::InvalidPassword));
    catalog.claim(b"root", b"password", root(1), &mut entropy).unwrap();
    let bob = catalog.create_user(b"bob", b"hunter2", root(2), &mut entropy).unwrap();
    assert_eq!(
        catalog.create_user(b"bob", b"other", root(3), &mut entropy),
        Err(UserError::Capacity)
    );
    assert_eq!(catalog.rename_user(bob, b"root"), Err(UserError::Capacity));
    let (_, session) = catalog.login(b"bob", b"hunter2").unwrap();
    assert_eq!(catalog.is_admin_session(session), Ok(false));
    assert_eq!(
        catalog.set_password(bob, b"new", &mut Broken),
        Err(UserError::Entropy)
    );
}

#[test]
fn service_requires_an_administrator_for_account_changes() {
    let mut service = UserService::new(Entropy(51));
    let mut claim = UserRequest::new(UserOperation::Claim, 1);
    claim.set_name(b"admin");
    claim.set_password(b"password");
    assert_eq!(service.handle(claim).status, UserStatus::Success);

    let mut create = UserRequest::new(UserOperation::Create, 2);
    create.set_name(b"guest");
    create.set_password(b"guest-password");
    assert_eq!(service.handle(create).status, UserStatus::Unauthorized);

    let mut login = UserRequest::new(UserOperation::Login, 3);
    login.set_name(b"admin");
    login.set_password(b"password");
    let answer = service.handle(login);
    assert_eq!(answer.status, UserStatus::Success);
    assert!(answer.session.is_valid());
    assert_eq!(answer.rights, NamespaceRights(RIGHT_READ | RIGHT_WRITE | RIGHT_DERIVE));

    create.session = answer.session;
    let created = service.handle(create);
    assert_eq!(created.status, UserStatus::Success);
    assert!(created.user.is_valid());

    let mut wrong = UserRequest::new(UserOperation::Login, 4);
    wrong.set_name(b"guest");
    wrong.set_password(b"nope");
    assert_eq!(service.handle(wrong).status, UserStatus::BadCredentials);

    let mut logout = UserRequest::new(UserOperation::Logout, 5);
    logout.session = answer.session;
    assert_eq!(service.handle(logout).status, UserStatus::Success);
    assert_eq!(service.handle(logout).status, UserStatus::Revoked);
}

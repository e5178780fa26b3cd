use intersections::accounts::{has_role, make_hash, verify, CustomError, InsertableUser, LoggedUser, SlimUser, User, UserData};
use intersections::forms::{
    community_slug, CommunityForm, DeleteCommunityForm, DeleteForm, DeleteUserForm, EmailForm, LoginForm,
    RegisterForm, UrlParams, UserForm, VerifyForm,
};

fn slim(role: &str) -> SlimUser {
    SlimUser { user_uuid: uuid::Uuid::nil(), email: "a@b.c".to_string(), role: role.to_string(), managed_communities: vec![] }
}

#[test]
fn hashes_depend_on_password_and_salt() {
    let h1 = make_hash("ChumbaWumba11", "somesaltsomesalt");
    let h2 = make_hash("ChumbaWumba11", "somesaltsomesalt");
    assert_eq!(h1, h2);
    assert_eq!(h1, argon2::hash_encoded(b"ChumbaWumba11", b"somesaltsomesalt", &argon2::Config::default()).unwrap());
    assert_ne!(h1, make_hash("ChumbaWumba12", "somesaltsomesalt"));
    assert_ne!(h1, make_hash("ChumbaWumba11", "othersaltothersalt"));
}

#[test]
fn verify_accepts_only_the_password() {
    let salt = "0123456789abcdef".to_string();
    let user = User {
        user_id: 1,
        user_uuid: uuid::Uuid::nil(),
        hash: make_hash("secret password", &salt).into_bytes(),
        salt,
        email: "admin@email.com".to_string(),
        user_name: "admin".to_string(),
        created_at: chrono::NaiveDate::from_ymd_opt(2020, 6, 6).unwrap().and_hms_opt(3, 3, 3).unwrap(),
        role: "admin".to_string(),
        managed_communities: vec![],
    };
    assert!(verify(&user, "secret password"));
    assert!(!verify(&user, "secret passwore"));
}

#[test]
fn new_users_get_a_salted_hash() {
    let u = InsertableUser::from(UserData {
        user_name: "ann".to_string(),
        email: "ann@x.org".to_string(),
        password: "pw".to_string(),
        managed_communities: vec![3],
    });
    assert_eq!(u.role, "user");
    assert_eq!(u.user_name, "ann");
    assert_eq!(u.managed_communities, vec![3]);
    assert_eq!(u.salt.chars().count(), 128);
    assert_eq!(u.hash, make_hash("pw", &u.salt).into_bytes());
}

#[test]
fn roles_are_checked() {
    assert!(matches!(has_role(&LoggedUser::from(slim("admin")), "admin"), Ok(true)));
    match has_role(&LoggedUser::from(slim("user")), "admin") {
        Err(CustomError { error_status_code, error_message }) => {
            assert_eq!(error_status_code, 2);
            assert_eq!(error_message, "Role not present");
        },
        Ok(_) => panic!("role should be refused"),
    }
    assert!(has_role(&LoggedUser(None), "user").is_err());
    let e = CustomError::new(406, "Not authorized".to_string());
    assert_eq!((e.error_status_code, e.error_message.as_str()), (406, "Not authorized"));
}

#[test]
fn login_needs_both_fields() {
    let f = LoginForm { email: " Ann@X.org ".to_string(), password: " pw ".to_string() };
    assert_eq!(f.credentials(), Some(("ann@x.org".to_string(), "pw".to_string())));
    assert_eq!(LoginForm { email: "".to_string(), password: "pw".to_string() }.credentials(), None);
    assert_eq!(LoginForm { email: "a".to_string(), password: "".to_string() }.credentials(), None);
}

#[test]
fn registration_reads_the_form() {
    let f = RegisterForm { user_name: " ann ".to_string(), email: "ANN@x.org".to_string(), password: " pw".to_string() };
    let r = f.registration().unwrap();
    assert_eq!(r.user_name, "ann");
    assert_eq!(r.email, "ann@x.org");
    assert_eq!(r.password, "pw");
    assert_eq!(r.role, "user");
    assert!(!r.validated);
    assert!(RegisterForm { user_name: "".to_string(), email: "a".to_string(), password: "b".to_string() }.registration().is_none());
}

#[test]
fn verification_codes_are_matched() {
    let f = VerifyForm { code: " abc ".to_string() };
    assert!(f.accepts("ann", "abc"));
    assert!(!f.accepts("", "abc"));
    assert!(!f.accepts("ann", "abd"));
    assert!(!VerifyForm { code: "".to_string() }.accepts("ann", ""));
}

#[test]
fn community_forms_give_phrases() {
    let f = CommunityForm {
        community_name: " Demo Community ".to_string(),
        description: " A Test ".to_string(),
        data_use_case: "Research".to_string(),
        open: "open".to_string(),
    };
    assert_eq!(
        f.phrase_texts(),
        Some(vec!["Demo Community".to_string(), "a test".to_string(), "research".to_string()])
    );
    assert!(f.is_open());
    let closed = CommunityForm { open: "closed".to_string(), ..f };
    assert!(!closed.is_open());
    let empty = CommunityForm { community_name: "".to_string(), ..closed };
    assert_eq!(empty.phrase_texts(), None);
    assert_eq!(community_slug(" Demo Community "), "demo_community");
}

#[test]
fn deletions_are_confirmed() {
    assert!(DeleteForm { verify: " Delete my profile ".to_string() }.confirms());
    assert!(!DeleteForm { verify: "delete my profile".to_string() }.confirms());
    assert!(DeleteCommunityForm { user_verify: "demo ".to_string() }.confirms("demo"));
    assert!(!DeleteCommunityForm { user_verify: "dem".to_string() }.confirms("demo"));
    assert!(DeleteUserForm { user_verify: " ann".to_string() }.confirms("ann"));
    assert!(!DeleteUserForm { user_verify: "bob".to_string() }.confirms("ann"));
}

#[test]
fn email_form_needs_an_address() {
    assert_eq!(EmailForm { email: "a@b.c".to_string() }.recipient(), Some("a@b.c".to_string()));
    assert_eq!(EmailForm { email: "".to_string() }.recipient(), None);
    let p = UrlParams { lang: Some("fr".to_string()) };
    assert_eq!(p.lang.as_deref(), Some("fr"));
}

#[test]
fn account_edits_are_permitted_and_compared() {
    let f = UserForm { user_name: " Ann B ".to_string(), email: " ANN@x.org".to_string() };
    assert!(f.permitted("ann", "ann", "admin"));
    assert!(!f.permitted("ann", "bob", "admin"));
    assert!(!f.permitted("ann", "ann", "user"));
    let c = f.changes("ann@x.org", "Ann");
    assert_eq!(c.email, None);
    assert_eq!(c.user_name, Some(("Ann B".to_string(), "ann_b".to_string())));
    let c = f.changes("old@x.org", "Ann B");
    assert_eq!(c.email, Some("ann@x.org".to_string()));
    assert_eq!(c.user_name, None);
}

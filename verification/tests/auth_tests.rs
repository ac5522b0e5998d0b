use ohiro_wallet::auth::{
    check_expiry, create_session_cookie, join_with_dot, session_clear_cookie, session_set_cookie,
    session_token_from_cookie, session_user, verify_session_token, Claims,
};
use ohiro_wallet::store::{create_user, MemoryStore};
use ohiro_wallet::errors::AppError;
use ohiro_wallet::models::UserRecord;

const CLAIMS: &[u8] = br#"{"sub":1,"username":"alexandre","name":"Alexandre","exp":100}"#;

#[test]
fn token_round_trip() {
    let token = create_session_cookie(CLAIMS, "segredo").unwrap();
    let parts: Vec<&str> = token.split('.').collect();
    assert_eq!(parts.len(), 3);
    assert_eq!(parts[0], "eyJhbGciOiJIUzI1NiIsInR5cCI6IkpXVCJ9");
    assert_ne!(parts[1].as_bytes(), CLAIMS);
    assert_eq!(parts[2].len(), 43);
    assert_eq!(verify_session_token(&token, "segredo").unwrap(), CLAIMS.to_vec());
}

#[test]
fn token_known_signature() {
    // HS256 over "eyJhbGciOiJIUzI1NiIsInR5cCI6IkpXVCJ9.e30" with key "k"
    let token = create_session_cookie(b"{}", "k").unwrap();
    assert!(token.starts_with("eyJhbGciOiJIUzI1NiIsInR5cCI6IkpXVCJ9.e30."));
    assert_eq!(verify_session_token(&token, "k").unwrap(), b"{}".to_vec());
}

#[test]
fn token_refusals() {
    let token = create_session_cookie(CLAIMS, "segredo").unwrap();
    assert!(matches!(verify_session_token(&token, "outro"), Err(AppError::Unauthorized)));
    let mut tampered = token.clone();
    tampered.push('x');
    assert!(matches!(verify_session_token(&tampered, "segredo"), Err(AppError::Unauthorized)));
    assert!(matches!(verify_session_token("a.b", "segredo"), Err(AppError::Unauthorized)));
    assert!(matches!(verify_session_token("a.b.c.d", "segredo"), Err(AppError::Unauthorized)));
    assert!(matches!(verify_session_token("", "segredo"), Err(AppError::Unauthorized)));
    let parts: Vec<&str> = token.split('.').collect();
    let swapped = format!("{}.{}.{}", parts[0], "e30", parts[2]);
    assert!(matches!(verify_session_token(&swapped, "segredo"), Err(AppError::Unauthorized)));
}

#[test]
fn claims_and_expiry() {
    let user = UserRecord {
        id: 3,
        name: "Ana".to_string(),
        username: "ana".to_string(),
        password_hash: "h".to_string(),
    };
    let claims = Claims::for_user(&user, 1000);
    assert_eq!(claims.sub, 3);
    assert_eq!(claims.username, "ana");
    assert_eq!(claims.name, "Ana");
    assert_eq!(claims.exp, 1000 + 43200);
    let ok = check_expiry(claims, 44200).unwrap();
    assert_eq!(ok.exp, 44200);
    assert!(matches!(check_expiry(ok, 44201), Err(AppError::Unauthorized)));
}

#[test]
fn cookies() {
    assert_eq!(
        session_set_cookie("abc"),
        "wallet_session=abc; Path=/; HttpOnly; SameSite=Lax; Max-Age=43200"
    );
    assert_eq!(session_clear_cookie(), "wallet_session=; Path=/; HttpOnly; SameSite=Lax; Max-Age=0");
    assert_eq!(session_token_from_cookie("wallet_session=abc"), Some("abc".to_string()));
    assert_eq!(session_token_from_cookie("a=1;  wallet_session=x.y.z ; b=2"), Some("x.y.z".to_string()));
    assert_eq!(session_token_from_cookie("a=1; b=2"), None);
    assert_eq!(session_token_from_cookie(""), None);
    assert_eq!(session_token_from_cookie("wallet_session=; wallet_session=t"), Some(String::new()));
    assert_eq!(session_token_from_cookie("xwallet_session=t"), None);
}

#[test]
fn session_cookie_reads_back() {
    let token = create_session_cookie(CLAIMS, "segredo").unwrap();
    assert!(token.chars().all(|c| c.is_ascii_alphanumeric() || c == '-' || c == '_' || c == '.'));
    let sent = format!("wallet_session={}", token);
    let found = session_token_from_cookie(&sent).unwrap();
    assert_eq!(found, token);
    assert_eq!(verify_session_token(&found, "segredo").unwrap(), CLAIMS.to_vec());
}

#[test]
fn joins_with_dot() {
    assert_eq!(join_with_dot("ab", "cd"), "ab.cd");
    assert_eq!(join_with_dot("", ""), ".");
}

#[test]
fn session_user_for_twelve_hours() {
    let mut store = MemoryStore::default();
    let user = create_user(&mut store, "Bia", "bia", "segredo1").unwrap();
    let claims = || Claims::for_user(&user, 1_000);
    let found = session_user(&store, claims(), 1_000).unwrap();
    assert_eq!(found.id, user.id);
    assert_eq!(found.username, "bia");
    assert_eq!(session_user(&store, claims(), 1_000 + 43_200).unwrap().id, user.id);
    assert!(matches!(session_user(&store, claims(), 1_000 + 43_201), Err(AppError::Unauthorized)));
    let stranger = Claims { sub: 99, username: "x".to_string(), name: "X".to_string(), exp: 5_000 };
    assert!(matches!(session_user(&store, stranger, 1_000), Err(AppError::Unauthorized)));
}

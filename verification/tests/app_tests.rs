use ohiro_wallet::app::{require_api_key, AppConfig};
use ohiro_wallet::errors::AppError;
use ohiro_wallet::views::{AssetsTemplate, LoginTemplate, RegisterTemplate};

#[test]
fn default_settings() {
    let c = AppConfig::from_settings(None, None, None, None, None);
    assert_eq!(c.host, "127.0.0.1");
    assert_eq!(c.port, 3000);
    assert_eq!(c.jwt_secret, "local-dev-jwt-secret-change-me");
    assert_eq!(c.api_secret_key, "dev-secret");
    assert!(c.seed_demo_data);
}

#[test]
fn given_settings() {
    let s = |v: &str| Some(v.to_string());
    let c = AppConfig::from_settings(s("0.0.0.0"), s("8080"), s("j"), s("k"), s("no"));
    assert_eq!(c.host, "0.0.0.0");
    assert_eq!(c.port, 8080);
    assert_eq!(c.jwt_secret, "j");
    assert_eq!(c.api_secret_key, "k");
    assert!(!c.seed_demo_data);
    assert_eq!(AppConfig::from_settings(None, s("70000"), None, None, s("YES")).port, 3000);
    assert_eq!(AppConfig::from_settings(None, s("+81"), None, None, None).port, 81);
    assert_eq!(AppConfig::from_settings(None, s(" 81"), None, None, None).port, 3000);
    assert_eq!(AppConfig::from_settings(None, s("65535"), None, None, None).port, 65535);
    for v in ["1", "true", "TRUE", "yes", "YES"] {
        assert!(AppConfig::from_settings(None, None, None, None, s(v)).seed_demo_data);
    }
    for v in ["True", "0", "", "y"] {
        assert!(!AppConfig::from_settings(None, None, None, None, s(v)).seed_demo_data);
    }
}

#[test]
fn api_key() {
    let c = AppConfig::from_settings(None, None, None, None, None);
    assert!(require_api_key(&c, Some("dev-secret")).is_ok());
    assert!(matches!(require_api_key(&c, Some("dev")), Err(AppError::Unauthorized)));
    assert!(matches!(require_api_key(&c, None), Err(AppError::Unauthorized)));
    let empty = AppConfig::from_settings(None, None, None, Some(String::new()), None);
    assert!(require_api_key(&empty, None).is_ok());
}

#[test]
fn error_statuses_and_messages() {
    assert_eq!(AppError::Unauthorized.status_code(), 401);
    assert_eq!(AppError::NotFound.status_code(), 404);
    assert_eq!(AppError::InvalidInput("x".to_string()).status_code(), 400);
    assert_eq!(AppError::Conflict("x".to_string()).status_code(), 409);
    assert_eq!(AppError::MemoryPoisoned.status_code(), 500);
    assert_eq!(AppError::Internal.status_code(), 500);
    assert_eq!(AppError::Unauthorized.message(), "nao autorizado");
    assert_eq!(AppError::NotFound.message(), "registro nao encontrado");
    assert_eq!(AppError::InvalidInput("x".to_string()).message(), "entrada invalida: x");
    assert_eq!(AppError::Conflict("y".to_string()).message(), "conflito: y");
    assert_eq!(AppError::MemoryPoisoned.message(), "erro de memoria compartilhada");
    assert_eq!(AppError::Internal.message(), "erro interno");
}

#[test]
fn templates() {
    let t = LoginTemplate::new(String::new());
    assert!(!t.has_error);
    let t = LoginTemplate::invalid_credentials();
    assert!(t.has_error);
    assert_eq!(t.error, "usuario ou senha invalidos");
    assert!(RegisterTemplate::new("e".to_string()).has_error);
    let a = AssetsTemplate::new("Ana".to_string(), Vec::new(), None);
    assert!(!a.has_error);
    assert_eq!(a.error, "");
    let a = AssetsTemplate::new("Ana".to_string(), Vec::new(), Some("falhou".to_string()));
    assert!(a.has_error);
}

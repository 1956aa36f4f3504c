use retrosync::auth::{
    require_refresh_token, require_stored, status_from_stored, token_expiry, token_is_fresh,
    AuthStatus, StoredAuth, TOKEN_EXPIRY_MARGIN_MS,
};
use retrosync::error::AppError;

#[test]
fn status_desconectado_sem_token_salvo() {
    let status = status_from_stored(None);
    assert!(!status.connected);
    assert!(status.email.is_none());
}

#[test]
fn status_conectado_le_email_do_token_salvo() {
    let status = status_from_stored(Some(StoredAuth {
        refresh_token: "tok".into(),
        email: Some("dev@retrosync".into()),
    }));
    assert!(status.connected);
    assert_eq!(status.email.as_deref(), Some("dev@retrosync"));
}

#[test]
fn desconectado_nao_tem_conta() {
    let s = AuthStatus::disconnected();
    assert!(!s.connected && s.email.is_none());
}

#[test]
fn token_renovado_com_margem() {
    let now = 1_000_000;
    let exp = token_expiry(now, 3600);
    assert_eq!(exp, now + 3_600_000);
    assert!(token_is_fresh(exp, now));
    assert!(!token_is_fresh(now + TOKEN_EXPIRY_MARGIN_MS, now));
    assert!(token_is_fresh(now + TOKEN_EXPIRY_MARGIN_MS + 1, now));
    assert_eq!(token_expiry(u64::MAX - 5, 1), u64::MAX);
    assert!(!token_is_fresh(u64::MAX, u64::MAX - 10));
}

#[test]
fn sem_refresh_token_e_erro_de_autenticacao() {
    assert_eq!(require_refresh_token(Some("r".into())), Ok("r".to_string()));
    assert!(matches!(require_refresh_token(None), Err(AppError::Auth(_))));
    assert!(matches!(require_stored(None), Err(AppError::Auth(_))));
    let ok = require_stored(Some(StoredAuth { refresh_token: "t".into(), email: None })).unwrap();
    assert_eq!(ok.refresh_token, "t");
}

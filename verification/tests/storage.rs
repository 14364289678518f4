use mimo_desktop_bridge::auth::Session;
use mimo_desktop_bridge::error::BridgeError;
use mimo_desktop_bridge::storage::{ct_eq, make_key_record, KeyStore, Settings, Storage};

#[test]
fn ct_eq_matches() {
    assert!(ct_eq("abc", "abc"));
    assert!(ct_eq("", ""));
    assert!(!ct_eq("abc", "abd"));
    assert!(!ct_eq("abc", "ab"));
    assert!(!ct_eq("abc", "abcd"));
}

#[test]
fn ct_eq_tells_other_characters_apart() {
    assert!(ct_eq("\u{4e2d}", "\u{4e2d}"));
    assert!(!ct_eq("\u{4e2d}", "\u{4e2e}"));
}

fn fresh() -> Storage {
    Storage::load_all(None, None, None)
}

fn ok_settings(_s: &Settings) -> Result<(), BridgeError> {
    Ok(())
}

fn bad_settings(_s: &Settings) -> Result<(), BridgeError> {
    Err(BridgeError::Io("disk full".to_string()))
}

fn ok_keys(_k: &KeyStore) -> Result<(), BridgeError> {
    Ok(())
}

#[test]
fn first_run_has_defaults() {
    let s = fresh().settings();
    assert_eq!(s.port, 8787);
    assert!(!s.api_key_required);
    assert!(!s.tls_enabled);
    assert_eq!(s.admin_password_hash, None);
    assert!(s.cors_origins.is_empty());
    assert!(fresh().session().is_none());
    assert!(fresh().list_keys().is_empty());
    assert!(!fresh().admin_configured());
}

#[test]
fn settings_are_kept_once_written() {
    let mut st = fresh();
    let mut written = Vec::new();
    st.set_port(9000, |s: &Settings| {
        written.push(s.port);
        Ok(())
    })
    .unwrap();
    assert_eq!(written, vec![9000]);
    st.set_api_key_required(true, ok_settings).unwrap();
    st.set_tls_enabled(true, ok_settings).unwrap();
    let s = st.settings();
    assert_eq!((s.port, s.api_key_required, s.tls_enabled), (9000, true, true));
    let e = st.set_port(9001, bad_settings).unwrap_err();
    assert_eq!(e.message(), "io: disk full");
    assert_eq!(e.status(), 500);
    assert_eq!(e.code(), "internal");
    assert_eq!(st.settings().port, 9000);
}

#[test]
fn sessions_are_kept_once_written() {
    let mut st = fresh();
    let mut s = Session::empty();
    s.user_id = Some("1".to_string());
    st.save_session(s.clone(), |_s: &Session| Ok(())).unwrap();
    assert_eq!(st.session().unwrap().user_id.as_deref(), Some("1"));
    s.user_id = Some("2".to_string());
    assert!(st
        .save_session(s, |_s: &Session| Err(BridgeError::Json("bad".to_string())))
        .is_err());
    assert_eq!(st.session().unwrap().user_id.as_deref(), Some("1"));
    st.clear_session();
    assert!(st.session().is_none());
}

#[test]
fn admin_password_is_verified() {
    let mut st = fresh();
    assert!(!st.verify_admin_password("secret1"));
    st.set_admin_password("secret1", ok_settings).unwrap();
    assert!(st.admin_configured());
    assert!(st.verify_admin_password("secret1"));
    assert!(!st.verify_admin_password("secret2"));
    let hash = st.settings().admin_password_hash.unwrap();
    assert!(hash.starts_with("$argon2id$"));
    assert!(!hash.contains("secret1"));
    assert!(st.set_admin_password("other22", bad_settings).is_err());
    assert!(st.verify_admin_password("secret1"));
    st.set_admin_password("secret1", ok_settings).unwrap();
    assert_ne!(st.settings().admin_password_hash.unwrap(), hash);
    let e = st.set_password_hash(Err("no salt".to_string()), ok_settings).unwrap_err();
    assert_eq!(e.message(), "storage: argon2: no salt");
    assert_eq!(e.code(), "storage_error");
    let mut odd = Settings::default();
    odd.admin_password_hash = Some("no hash".to_string());
    let odd = Storage::load_all(Some(odd), None, None);
    assert!(!odd.verify_admin_password("no hash"));
}

#[test]
fn keys_are_created_and_deleted() {
    let mut st = fresh();
    let (id, token) = st.create_api_key("laptop", ok_keys).unwrap();
    let (id2, token2) = st.create_api_key("", ok_keys).unwrap();
    assert_ne!(token, token2);
    assert!(id.starts_with("key_"));
    assert_eq!(token.len(), 68);
    assert!(token.starts_with("mdb_"));
    assert!(st.verify_api_key(&token));
    assert!(st.verify_api_key(&token2));
    assert!(!st.verify_api_key("mdb_"));
    let keys = st.list_keys();
    assert_eq!(keys[0].label, "laptop");
    assert_eq!(keys[1].label, "unnamed");
    assert_eq!(keys[0].prefix, token[..12].to_string());
    assert_eq!(keys[0].hash.len(), 64);
    assert_ne!(keys[0].hash, token);
    assert!(st.delete_api_key(&id, ok_keys).unwrap());
    assert!(!st.verify_api_key(&token));
    assert!(st.verify_api_key(&token2));
    assert!(!st.delete_api_key(&id, ok_keys).unwrap());
    assert!(st
        .delete_api_key(&id2, |_k: &KeyStore| Err(BridgeError::Io("full".to_string())))
        .is_err());
    assert!(st.list_keys().is_empty());
}

#[test]
fn unwritten_key_is_still_on_record() {
    let mut st = fresh();
    let made = st.create_api_key("x", |k: &KeyStore| {
        assert_eq!(k.keys.len(), 1);
        Err(BridgeError::Io("full".to_string()))
    });
    assert!(made.is_err());
    assert_eq!(st.list_keys().len(), 1);
}

#[test]
fn records_hold_hash_and_prefix() {
    let r = make_key_record("key_1".to_string(), "mdb_abc", "l", 5);
    assert_eq!(r.hash, "1b5bb05aa4d0530812bff31369769eaca285a46525353ae74945849b65bbae41");
    assert_eq!(r.prefix, "mdb_abc");
    assert_eq!(r.created, 5);
    let st = Storage::load_all(None, None, Some(KeyStore { keys: vec![r] }));
    assert!(st.verify_api_key("mdb_abc"));
    assert!(!st.verify_api_key("mdb_abd"));
}

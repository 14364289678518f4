//! Settings, the account session, API keys and the admin password.
//!
//! Values are kept in memory; each change that has to last is handed to a function that writes
//! it.

use crate::auth::{Session, SessionView};
use crate::error::{BridgeError, ErrorView};
use crate::outside;
use crate::text;
use crate::upstream;
use vstd::prelude::*;
use vstd::utf8::encode_utf8;

verus! {

// ── models ──────────────────────────────────────────────────────────
/// What settings are.
#[verifier::ext_equal]
pub struct SettingsView {
    pub port: u16,
    pub api_key_required: bool,
    pub admin_password_hash: Option<Seq<char>>,
    pub tls_enabled: bool,
    pub tls_cert_path: Option<Seq<char>>,
    pub tls_key_path: Option<Seq<char>>,
    pub cors_origins: Seq<Seq<char>>,
}

/// What the record of an API key is.
#[verifier::ext_equal]
pub struct KeyView {
    pub id: Seq<char>,
    pub hash: Seq<char>,
    pub prefix: Seq<char>,
    pub label: Seq<char>,
    pub created: i64,
}

/// What is stored.
#[verifier::ext_equal]
pub struct StorageView {
    pub settings: SettingsView,
    pub session: Option<SessionView>,
    pub keys: Seq<KeyView>,
}

pub const DEFAULT_PORT: u16 = 8787;

/// The settings of a first run.
pub open spec fn default_settings() -> SettingsView {
    SettingsView {
        port: DEFAULT_PORT,
        api_key_required: false,
        admin_password_hash: None,
        tls_enabled: false,
        tls_cert_path: None,
        tls_key_path: None,
        cors_origins: Seq::empty(),
    }
}

/// The plain text of a key made from random bytes.
pub open spec fn token_of(raw: Seq<u8>) -> Seq<char> {
    "mdb_"@ + outside::hex_text(raw)
}

/// The hash that is kept of a key.
pub open spec fn key_hash(token: Seq<char>) -> Seq<char> {
    outside::hex_text(outside::sha256_of(encode_utf8(token)))
}

/// The record of a new key.
pub open spec fn key_record(id: Seq<char>, token: Seq<char>, label: Seq<char>, created: i64) -> KeyView {
    KeyView {
        id,
        hash: key_hash(token),
        prefix: text::first_chars_of(token, 12),
        label: if label.len() == 0 {
            "unnamed"@
        } else {
            label
        },
        created,
    }
}

/// The records whose identifier is not `id`.
pub open spec fn without_id(keys: Seq<KeyView>, id: Seq<char>) -> Seq<KeyView> {
    keys.filter(|k: KeyView| k.id != id)
}

/// Whether a presented key is one of those on record.
pub open spec fn accepts_key(keys: Seq<KeyView>, presented: Seq<char>) -> bool {
    exists|i: int| 0 <= i < keys.len() && (#[trigger] keys[i]).hash == key_hash(presented)
}

/// Whether a password is the admin's.
pub open spec fn accepts_password(settings: SettingsView, password: Seq<char>) -> bool {
    match settings.admin_password_hash {
        Some(hash) => outside::argon2_accepts(hash, encode_utf8(password)),
        None => false,
    }
}

// ── laws ────────────────────────────────────────────────────────────
/// A key is accepted as soon as it is on record, and so is every key that was accepted before.
pub proof fn new_keys_are_accepted(
    keys: Seq<KeyView>,
    id: Seq<char>,
    token: Seq<char>,
    label: Seq<char>,
    created: i64,
    other: Seq<char>,
)
    ensures
        accepts_key(keys.push(key_record(id, token, label, created)), token),
        accepts_key(keys, other) ==> accepts_key(
            keys.push(key_record(id, token, label, created)),
            other,
        ),
{
    let after = keys.push(key_record(id, token, label, created));
    assert(after[keys.len() as int].hash == key_hash(token));
    if accepts_key(keys, other) {
        let i = choose|i: int| 0 <= i < keys.len() && (#[trigger] keys[i]).hash == key_hash(other);
        assert(after[i].hash == key_hash(other));
    }
}

/// Once an identifier is deleted, a key is accepted just if a record of another identifier has
/// its hash: the deleted key is refused, and the others go on being accepted.
pub proof fn deleted_keys_are_refused(keys: Seq<KeyView>, id: Seq<char>, presented: Seq<char>)
    ensures
        accepts_key(without_id(keys, id), presented) == exists|i: int|
            0 <= i < keys.len() && (#[trigger] keys[i]).hash == key_hash(presented) && keys[i].id
                != id,
        forall|i: int| 0 <= i < without_id(keys, id).len() ==> (#[trigger] without_id(keys, id)[i]).id
            != id,
    decreases keys.len(),
{
    reveal(Seq::filter);
    if keys.len() > 0 {
        let head = keys.drop_last();
        deleted_keys_are_refused(head, id, presented);
        let rest = without_id(head, id);
        let all = without_id(keys, id);
        if accepts_key(all, presented) {
            let i = choose|i: int|
                0 <= i < all.len() && (#[trigger] all[i]).hash == key_hash(presented);
            if i < rest.len() {
                assert(rest[i].hash == key_hash(presented));
                let j = choose|j: int|
                    0 <= j < head.len() && (#[trigger] head[j]).hash == key_hash(presented)
                        && head[j].id != id;
                assert(keys[j].hash == key_hash(presented));
            } else {
                assert(keys[keys.len() - 1].hash == key_hash(presented));
            }
        }
        if exists|i: int|
            0 <= i < keys.len() && (#[trigger] keys[i]).hash == key_hash(presented) && keys[i].id
                != id {
            let i = choose|i: int|
                0 <= i < keys.len() && (#[trigger] keys[i]).hash == key_hash(presented)
                    && keys[i].id != id;
            if i < head.len() {
                assert(head[i].hash == key_hash(presented));
                let j = choose|j: int|
                    0 <= j < rest.len() && (#[trigger] rest[j]).hash == key_hash(presented);
                assert(all[j].hash == key_hash(presented));
            } else {
                assert(all[rest.len() as int].hash == key_hash(presented));
            }
        }
    }
}

/// Deleting an identifier strikes off its records and no other.
pub proof fn others_stay_on_record(keys: Seq<KeyView>, id: Seq<char>, other: KeyView)
    ensures
        without_id(keys, id).contains(other) <==> keys.contains(other) && other.id != id,
    decreases keys.len(),
{
    reveal(Seq::filter);
    if keys.len() > 0 {
        let head = keys.drop_last();
        others_stay_on_record(head, id, other);
        let rest = without_id(head, id);
        let all = without_id(keys, id);
        if all.contains(other) {
            let i = choose|i: int| 0 <= i < all.len() && all[i] == other;
            if i < rest.len() {
                assert(rest[i] == other);
                let j = choose|j: int| 0 <= j < head.len() && head[j] == other;
                assert(keys[j] == other);
            } else {
                assert(keys[keys.len() - 1] == other);
            }
        }
        if keys.contains(other) && other.id != id {
            let i = choose|i: int| 0 <= i < keys.len() && keys[i] == other;
            if i < head.len() {
                assert(head[i] == other);
                let j = choose|j: int| 0 <= j < rest.len() && rest[j] == other;
                assert(all[j] == other);
            } else {
                assert(all[rest.len() as int] == other);
            }
        }
    }
}

/// Of a key's plain text only its hash and its first twelve characters are kept: two texts that
/// agree in these leave the same record.
pub proof fn records_keep_only_hash_and_prefix(
    id: Seq<char>,
    a: Seq<char>,
    b: Seq<char>,
    label: Seq<char>,
    created: i64,
)
    requires
        key_hash(a) == key_hash(b),
        text::first_chars_of(a, 12) == text::first_chars_of(b, 12),
    ensures
        key_record(id, a, label, created) == key_record(id, b, label, created),
{
}

// ── values ──────────────────────────────────────────────────────────
#[derive(Debug)]
pub struct Settings {
    pub port: u16,
    pub api_key_required: bool,
    /// Argon2 hash of admin password; None = first-run setup.
    pub admin_password_hash: Option<String>,
    /// Serve HTTPS (self-signed cert auto-generated under config dir).
    pub tls_enabled: bool,
    /// Optional user-provided PEM cert/key (overrides auto-generated).
    pub tls_cert_path: Option<String>,
    pub tls_key_path: Option<String>,
    /// Extra allowed CORS origins (e.g. "http://localhost:3000").
    /// Empty (default) = no CORS headers = same-origin only. A permissive
    /// default would let any website call the local /v1 from the browser.
    pub cors_origins: Vec<String>,
}

impl View for Settings {
    type V = SettingsView;

    open spec fn view(&self) -> SettingsView {
        SettingsView {
            port: self.port,
            api_key_required: self.api_key_required,
            admin_password_hash: text::opt_view(self.admin_password_hash),
            tls_enabled: self.tls_enabled,
            tls_cert_path: text::opt_view(self.tls_cert_path),
            tls_key_path: text::opt_view(self.tls_key_path),
            cors_origins: text::views(self.cors_origins@),
        }
    }
}

impl Default for Settings {
    fn default() -> (r: Settings)
        ensures
            r@ == default_settings(),
    {
        let r = Settings {
            port: DEFAULT_PORT,
            api_key_required: false,
            admin_password_hash: None,
            tls_enabled: false,
            tls_cert_path: None,
            tls_key_path: None,
            cors_origins: Vec::new(),
        };
        assert(r@.cors_origins =~= Seq::<Seq<char>>::empty());
        r
    }
}

/// The same texts once more.
pub fn copy_texts(texts: &Vec<String>) -> (r: Vec<String>)
    ensures
        text::views(r@) == text::views(texts@),
{
    let mut out: Vec<String> = Vec::new();
    let mut i: usize = 0;
    while i < texts.len()
        invariant
            i <= texts@.len(),
            out@.len() == i,
            forall|k: int| 0 <= k < i ==> (#[trigger] out@[k])@ == texts@[k]@,
        decreases texts@.len() - i,
    {
        out.push(texts[i].clone());
        i += 1;
    }
    assert(text::views(out@) =~= text::views(texts@));
    out
}

impl Clone for Settings {
    fn clone(&self) -> (r: Settings)
        ensures
            r@ == self@,
    {
        Settings {
            port: self.port,
            api_key_required: self.api_key_required,
            admin_password_hash: self.admin_password_hash.clone(),
            tls_enabled: self.tls_enabled,
            tls_cert_path: self.tls_cert_path.clone(),
            tls_key_path: self.tls_key_path.clone(),
            cors_origins: copy_texts(&self.cors_origins),
        }
    }
}

#[derive(Debug)]
pub struct ApiKeyRecord {
    pub id: String,
    pub hash: String,
    pub prefix: String,
    pub label: String,
    pub created: i64,
}

impl View for ApiKeyRecord {
    type V = KeyView;

    open spec fn view(&self) -> KeyView {
        KeyView {
            id: self.id@,
            hash: self.hash@,
            prefix: self.prefix@,
            label: self.label@,
            created: self.created,
        }
    }
}

impl Clone for ApiKeyRecord {
    fn clone(&self) -> (r: ApiKeyRecord)
        ensures
            r@ == self@,
    {
        ApiKeyRecord {
            id: self.id.clone(),
            hash: self.hash.clone(),
            prefix: self.prefix.clone(),
            label: self.label.clone(),
            created: self.created,
        }
    }
}

#[derive(Debug)]
pub struct KeyStore {
    pub keys: Vec<ApiKeyRecord>,
}

/// What records are.
pub open spec fn key_views(keys: Seq<ApiKeyRecord>) -> Seq<KeyView> {
    keys.map_values(|k: ApiKeyRecord| k@)
}

impl View for KeyStore {
    type V = Seq<KeyView>;

    open spec fn view(&self) -> Seq<KeyView> {
        key_views(self.keys@)
    }
}

impl Default for KeyStore {
    fn default() -> (r: KeyStore)
        ensures
            r@ == Seq::<KeyView>::empty(),
    {
        let r = KeyStore { keys: Vec::new() };
        assert(r@ =~= Seq::<KeyView>::empty());
        r
    }
}

impl Clone for KeyStore {
    fn clone(&self) -> (r: KeyStore)
        ensures
            r@ == self@,
    {
        let mut keys: Vec<ApiKeyRecord> = Vec::new();
        let mut i: usize = 0;
        while i < self.keys.len()
            invariant
                i <= self.keys@.len(),
                keys@.len() == i,
                forall|k: int| 0 <= k < i ==> (#[trigger] keys@[k])@ == self.keys@[k]@,
            decreases self.keys@.len() - i,
        {
            keys.push(self.keys[i].clone());
            i += 1;
        }
        let r = KeyStore { keys };
        assert(r@ =~= self@);
        r
    }
}

/// The record of a new key.
pub fn make_key_record(id: String, token: &str, label: &str, created: i64) -> (r: ApiKeyRecord)
    ensures
        r@ == key_record(id@, token@, label@, created),
{
    let label = if text::chars_of(label).len() == 0 {
        "unnamed"
    } else {
        label
    };
    ApiKeyRecord {
        id,
        hash: outside::hex_encode(outside::sha256_digest(token.as_bytes()).as_slice()),
        prefix: text::first_chars(token, 12),
        label: label.to_string(),
        created,
    }
}

/// What is stored.
#[derive(Debug)]
pub struct Storage {
    settings: Settings,
    session: Option<Session>,
    keys: KeyStore,
}

impl View for Storage {
    type V = StorageView;

    closed spec fn view(&self) -> StorageView {
        StorageView {
            settings: self.settings@,
            session: upstream::opt_session(self.session),
            keys: self.keys@,
        }
    }
}

/// How an attempt to keep a value ended: where the write went well, what is stored is `after`;
/// else it stays `before`, and the error is handed on.
pub open spec fn saved(
    written: Result<(), BridgeError>,
    r: Result<(), BridgeError>,
    before: StorageView,
    after: StorageView,
    now: StorageView,
) -> bool {
    match written {
        Ok(_) => r is Ok && now == after,
        Err(e) => r == Err::<(), BridgeError>(e) && now == before,
    }
}

/// Whether `w` can come of handing settings to `write`.
pub open spec fn settings_written<W: FnOnce(&Settings) -> Result<(), BridgeError>>(
    write: W,
    settings: SettingsView,
    w: Result<(), BridgeError>,
) -> bool {
    exists|s: &Settings| #[trigger] call_ensures(write, (s,), w) && s@ == settings
}

/// Whether `w` can come of handing a session to `write`.
pub open spec fn session_written<W: FnOnce(&Session) -> Result<(), BridgeError>>(
    write: W,
    session: SessionView,
    w: Result<(), BridgeError>,
) -> bool {
    exists|s: &Session| #[trigger] call_ensures(write, (s,), w) && s@ == session
}

/// Whether `w` can come of handing key records to `write`.
pub open spec fn keys_written<W: FnOnce(&KeyStore) -> Result<(), BridgeError>>(
    write: W,
    keys: Seq<KeyView>,
    w: Result<(), BridgeError>,
) -> bool {
    exists|k: &KeyStore| #[trigger] call_ensures(write, (k,), w) && k@ == keys
}

/// How a change of the settings ended.
pub open spec fn settings_saved<W: FnOnce(&Settings) -> Result<(), BridgeError>>(
    write: W,
    r: Result<(), BridgeError>,
    before: StorageView,
    settings: SettingsView,
    now: StorageView,
) -> bool {
    exists|w: Result<(), BridgeError>| #[trigger]
        settings_written(write, settings, w) && saved(
            w,
            r,
            before,
            StorageView { settings, ..before },
            now,
        )
}

/// What is stored after an attempt to keep a session that may fail in silence.
pub open spec fn session_kept<W: FnOnce(&Session) -> Result<(), BridgeError>>(
    write: W,
    before: StorageView,
    session: SessionView,
    now: StorageView,
) -> bool {
    exists|w: Result<(), BridgeError>| #[trigger]
        session_written(write, session, w) && now == (if w is Ok {
            StorageView { session: Some(session), ..before }
        } else {
            before
        })
}

impl Storage {
    /// What the files held, so far as they could be read.
    pub fn load_all(settings: Option<Settings>, session: Option<Session>, keys: Option<KeyStore>) -> (r:
        Storage)
        ensures
            r@.settings == (match settings {
                Some(s) => s@,
                None => default_settings(),
            }),
            r@.session == upstream::opt_session(session),
            r@.keys == (match keys {
                Some(k) => k@,
                None => Seq::empty(),
            }),
    {
        let settings = match settings {
            Some(s) => s,
            None => Settings::default(),
        };
        let keys = match keys {
            Some(k) => k,
            None => KeyStore::default(),
        };
        Storage { settings, session, keys }
    }

    pub fn settings(&self) -> (r: Settings)
        ensures
            r@ == self@.settings,
    {
        self.settings.clone()
    }

    /// Keeps new settings, once `write` has written them.
    pub fn save_settings<W: FnOnce(&Settings) -> Result<(), BridgeError>>(
        &mut self,
        settings: Settings,
        write: W,
    ) -> (r: Result<(), BridgeError>)
        requires
            forall|s: &Settings| call_requires(write, (s,)),
        ensures
            settings_saved(write, r, old(self)@, settings@, final(self)@),
    {
        let written = write(&settings);
        assert(settings_written(write, settings@, written));
        match written {
            Ok(u) => {
                self.settings = settings;
                Ok(u)
            },
            Err(e) => Err(e),
        }
    }

    pub fn set_port<W: FnOnce(&Settings) -> Result<(), BridgeError>>(
        &mut self,
        port: u16,
        write: W,
    ) -> (r: Result<(), BridgeError>)
        requires
            forall|s: &Settings| call_requires(write, (s,)),
        ensures
            settings_saved(
                write,
                r,
                old(self)@,
                SettingsView { port, ..old(self)@.settings },
                final(self)@,
            ),
    {
        let mut s = self.settings();
        s.port = port;
        self.save_settings(s, write)
    }

    pub fn set_api_key_required<W: FnOnce(&Settings) -> Result<(), BridgeError>>(
        &mut self,
        required: bool,
        write: W,
    ) -> (r: Result<(), BridgeError>)
        requires
            forall|s: &Settings| call_requires(write, (s,)),
        ensures
            settings_saved(
                write,
                r,
                old(self)@,
                SettingsView { api_key_required: required, ..old(self)@.settings },
                final(self)@,
            ),
    {
        let mut s = self.settings();
        s.api_key_required = required;
        self.save_settings(s, write)
    }

    pub fn set_tls_enabled<W: FnOnce(&Settings) -> Result<(), BridgeError>>(
        &mut self,
        enabled: bool,
        write: W,
    ) -> (r: Result<(), BridgeError>)
        requires
            forall|s: &Settings| call_requires(write, (s,)),
        ensures
            settings_saved(
                write,
                r,
                old(self)@,
                SettingsView { tls_enabled: enabled, ..old(self)@.settings },
                final(self)@,
            ),
    {
        let mut s = self.settings();
        s.tls_enabled = enabled;
        self.save_settings(s, write)
    }

    pub fn session(&self) -> (r: Option<Session>)
        ensures
            upstream::opt_session(r) == self@.session,
    {
        match &self.session {
            Some(s) => Some(s.clone()),
            None => None,
        }
    }

    /// Keeps a session, once `write` has written it.
    pub fn save_session<W: FnOnce(&Session) -> Result<(), BridgeError>>(
        &mut self,
        session: Session,
        write: W,
    ) -> (r: Result<(), BridgeError>)
        requires
            forall|s: &Session| call_requires(write, (s,)),
        ensures
            exists|w: Result<(), BridgeError>| #[trigger]
                session_written(write, session@, w) && saved(
                    w,
                    r,
                    old(self)@,
                    StorageView { session: Some(session@), ..old(self)@ },
                    final(self)@,
                ),
    {
        let written = write(&session);
        assert(session_written(write, session@, written));
        match written {
            Ok(u) => {
                self.session = Some(session);
                Ok(u)
            },
            Err(e) => Err(e),
        }
    }

    /// Forgets the session.
    pub fn clear_session(&mut self)
        ensures
            final(self)@ == (StorageView { session: None, ..old(self)@ }),
    {
        self.session = None;
    }

    // ── admin password ──────────────────────────────────────────────
    pub fn admin_configured(&self) -> (r: bool)
        ensures
            r == self@.settings.admin_password_hash is Some,
    {
        self.settings.admin_password_hash.is_some()
    }

    /// Keeps the hash of a new admin password, or says why there is none.
    pub fn set_password_hash<W: FnOnce(&Settings) -> Result<(), BridgeError>>(
        &mut self,
        hash: Result<String, String>,
        write: W,
    ) -> (r: Result<(), BridgeError>)
        requires
            forall|s: &Settings| call_requires(write, (s,)),
        ensures
            match hash {
                Ok(h) => settings_saved(
                    write,
                    r,
                    old(self)@,
                    SettingsView { admin_password_hash: Some(h@), ..old(self)@.settings },
                    final(self)@,
                ),
                Err(m) => r matches Err(e) && e@ == ErrorView::Storage("argon2: "@ + m@)
                    && final(self)@ == old(self)@,
            },
    {
        match hash {
            Ok(h) => {
                let mut s = self.settings();
                s.admin_password_hash = Some(h);
                self.save_settings(s, write)
            },
            Err(m) => Err(BridgeError::Storage(text::cat2("argon2: ", m.as_str()))),
        }
    }

    /// Keeps a new admin password: its hash with a fresh salt. The password is the admin's
    /// afterwards. Only a password that is too long to be hashed, or a write that fails, stands in
    /// the way.
    pub fn set_admin_password<W: FnOnce(&Settings) -> Result<(), BridgeError>>(
        &mut self,
        password: &str,
        write: W,
    ) -> (r: Result<(), BridgeError>)
        requires
            forall|s: &Settings| call_requires(write, (s,)),
        ensures
            exists|salt: Seq<char>|
                outside::is_salt(salt) && match #[trigger] outside::argon2_of(
                    encode_utf8(password@),
                    salt,
                ) {
                    Ok(h) => settings_saved(
                        write,
                        r,
                        old(self)@,
                        SettingsView { admin_password_hash: Some(h), ..old(self)@.settings },
                        final(self)@,
                    ),
                    Err(m) => !outside::can_be_hashed(encode_utf8(password@)) && (r matches Err(e)
                        && e@ == ErrorView::Storage("argon2: "@ + m)) && final(self)@ == old(self)@,
                },
            r is Ok ==> accepts_password(final(self)@.settings, password@),
    {
        let salt = outside::fresh_salt();
        let hash = outside::argon2_hash(password.as_bytes(), salt.as_str());
        self.set_password_hash(hash, write)
    }

    pub fn verify_admin_password(&self, password: &str) -> (r: bool)
        ensures
            r == accepts_password(self@.settings, password@),
    {
        match &self.settings.admin_password_hash {
            Some(hash) => outside::argon2_verify(hash.as_str(), password.as_bytes()),
            None => false,
        }
    }

    // ── API keys ────────────────────────────────────────────────────
    pub fn list_keys(&self) -> (r: Vec<ApiKeyRecord>)
        ensures
            key_views(r@) == self@.keys,
    {
        self.keys.clone().keys
    }

    /// Puts a key on record and has the records written. The key is on record even if that
    /// fails.
    pub fn add_key<W: FnOnce(&KeyStore) -> Result<(), BridgeError>>(
        &mut self,
        record: ApiKeyRecord,
        write: W,
    ) -> (r: Result<(), BridgeError>)
        requires
            forall|k: &KeyStore| call_requires(write, (k,)),
        ensures
            final(self)@ == (StorageView { keys: old(self)@.keys.push(record@), ..old(self)@ }),
            keys_written(write, final(self)@.keys, r),
    {
        let ghost before = self@.keys;
        self.keys.keys.push(record);
        assert(self.keys@ =~= before.push(record@));
        write(&self.keys)
    }

    /// Create a key. Returns (id, plaintext). Only hash + prefix are stored.
    pub fn create_api_key<W: FnOnce(&KeyStore) -> Result<(), BridgeError>>(
        &mut self,
        label: &str,
        write: W,
    ) -> (r: Result<(String, String), BridgeError>)
        requires
            forall|k: &KeyStore| call_requires(write, (k,)),
        ensures
            exists|raw: Seq<u8>, uuid: Seq<char>, created: i64, w: Result<(), BridgeError>|
                {
                    let id = "key_"@ + uuid;
                    let token = #[trigger] token_of(raw);
                    &&& raw.len() == 32
                    &&& outside::is_simple_uuid(uuid)
                    &&& final(self)@ == (StorageView {
                        keys: old(self)@.keys.push(
                            #[trigger] key_record("key_"@ + uuid, token_of(raw), label@, created),
                        ),
                        ..old(self)@
                    })
                    &&& #[trigger] keys_written(write, final(self)@.keys, w)
                    &&& match w {
                        Ok(_) => r matches Ok(p) && p.0@ == id && p.1@ == token,
                        Err(e) => r == Err::<(String, String), BridgeError>(e),
                    }
                },
            r matches Ok(p) ==> accepts_key(final(self)@.keys, p.1@),
    {
        let raw = outside::random_bytes();
        let token = text::cat2("mdb_", outside::hex_encode(raw.as_slice()).as_str());
        let uuid = outside::fresh_uuid();
        let id = text::cat2("key_", uuid.as_str());
        let created = outside::now_millis();
        let record = make_key_record(id.clone(), token.as_str(), label, created);
        let ghost keys = self@.keys;
        let written = self.add_key(record, write);
        assert(token@ == token_of(raw@));
        proof {
            new_keys_are_accepted(keys, id@, token@, label@, created, token@);
        }
        match written {
            Ok(_) => Ok((id, token)),
            Err(e) => Err(e),
        }
    }

    /// Strikes the key with this identifier off the record, and has the records written if
    /// there was one. Says whether there was.
    pub fn delete_api_key<W: FnOnce(&KeyStore) -> Result<(), BridgeError>>(
        &mut self,
        id: &str,
        write: W,
    ) -> (r: Result<bool, BridgeError>)
        requires
            forall|k: &KeyStore| call_requires(write, (k,)),
        ensures
            final(self)@ == (StorageView {
                keys: without_id(old(self)@.keys, id@),
                ..old(self)@
            }),
            (forall|i: int| 0 <= i < old(self)@.keys.len() ==> (#[trigger] old(self)@.keys[i]).id
                != id@) ==> r == Ok::<bool, BridgeError>(false),
            (exists|i: int| 0 <= i < old(self)@.keys.len() && (#[trigger] old(self)@.keys[i]).id
                == id@) ==> exists|w: Result<(), BridgeError>| #[trigger]
                keys_written(write, final(self)@.keys, w) && match w {
                    Ok(_) => r == Ok::<bool, BridgeError>(true),
                    Err(e) => r == Err::<bool, BridgeError>(e),
                },
    {
        let ghost before = self@.keys;
        let mut kept: Vec<ApiKeyRecord> = Vec::new();
        let mut removed = false;
        let mut i: usize = 0;
        assert(before.take(0) =~= Seq::<KeyView>::empty());
        proof {
            reveal(Seq::filter);
        }
        assert(key_views(kept@) =~= without_id(before.take(0), id@));
        while i < self.keys.keys.len()
            invariant
                i <= self.keys.keys@.len(),
                before == self@.keys,
                before == key_views(self.keys.keys@),
                key_views(kept@) == without_id(before.take(i as int), id@),
                removed == exists|k: int| 0 <= k < i && (#[trigger] before[k]).id == id@,
            decreases self.keys.keys@.len() - i,
        {
            let ghost head = before.take(i + 1);
            let ghost was = kept@;
            proof {
                reveal(Seq::filter);
                assert(head.drop_last() =~= before.take(i as int));
                assert(head.last() == before[i as int]);
            }
            if text::same(self.keys.keys[i].id.as_str(), id) {
                removed = true;
            } else {
                kept.push(self.keys.keys[i].clone());
                assert(key_views(kept@) =~= key_views(was).push(before[i as int]));
            }
            i += 1;
        }
        assert(before.take(i as int) =~= before);
        self.keys = KeyStore { keys: kept };
        if !removed {
            return Ok(false);
        }
        let written = write(&self.keys);
        assert(keys_written(write, self@.keys, written));
        match written {
            Ok(_) => Ok(true),
            Err(e) => Err(e),
        }
    }

    pub fn verify_api_key(&self, presented: &str) -> (r: bool)
        ensures
            r == accepts_key(self@.keys, presented@),
    {
        let hash = outside::hex_encode(outside::sha256_digest(presented.as_bytes()).as_slice());
        let mut i: usize = 0;
        while i < self.keys.keys.len()
            invariant
                i <= self.keys.keys@.len(),
                hash@ == key_hash(presented@),
                self@.keys == key_views(self.keys.keys@),
                forall|k: int| 0 <= k < i ==> (#[trigger] self@.keys[k]).hash != hash@,
            decreases self.keys.keys@.len() - i,
        {
            if text::same(self.keys.keys[i].hash.as_str(), hash.as_str()) {
                assert(self@.keys[i as int].hash == hash@);
                return true;
            }
            i += 1;
        }
        false
    }
}

/// Constant-time-ish string compare for session cookies (not security-critical).
pub fn ct_eq(a: &str, b: &str) -> (r: bool)
    ensures
        r == (a@ == b@),
{
    let x = a.as_bytes();
    let y = b.as_bytes();
    proof {
        vstd::utf8::encode_utf8_decode_utf8(a@);
        vstd::utf8::encode_utf8_decode_utf8(b@);
    }
    if x.len() != y.len() {
        return false;
    }
    let mut acc: u8 = 0;
    let mut i: usize = 0;
    while i < x.len()
        invariant
            x@.len() == y@.len(),
            i <= x@.len(),
            acc == 0 <==> forall|k: int| 0 <= k < i ==> x@[k] == y@[k],
        decreases x@.len() - i,
    {
        let p: u8 = x[i];
        let q: u8 = y[i];
        let next: u8 = acc | (p ^ q);
        assert(next == 0 <==> acc == 0 && p == q) by (bit_vector)
            requires
                next == acc | (p ^ q),
        ;
        assert(p == x@[i as int] && q == y@[i as int]);
        acc = next;
        i += 1;
    }
    if acc == 0 {
        assert(x@ =~= y@);
    }
    acc == 0
}

/// Settings that could be written are those in force, and all else that is stored stays as it was;
/// settings that could not be written leave everything as it was, and the caller is told.
pub proof fn written_settings_are_in_force<W: FnOnce(&Settings) -> Result<(), BridgeError>>(
    write: W,
    r: Result<(), BridgeError>,
    before: StorageView,
    settings: SettingsView,
    now: StorageView,
)
    requires
        settings_saved(write, r, before, settings, now),
    ensures
        (forall|s: &Settings, w: Result<(), BridgeError>| #[trigger]
            call_ensures(write, (s,), w) && s@ == settings ==> w is Ok) ==> r is Ok && now.settings
            == settings && now.session == before.session && now.keys == before.keys,
        (forall|s: &Settings, w: Result<(), BridgeError>| #[trigger]
            call_ensures(write, (s,), w) && s@ == settings ==> w is Err) ==> r is Err && now
            == before,
        r is Ok ==> now.settings == settings,
        r is Err ==> now == before,
{
    let w = choose|w: Result<(), BridgeError>| #[trigger]
        settings_written(write, settings, w) && saved(
            w,
            r,
            before,
            StorageView { settings, ..before },
            now,
        );
    let s = choose|s: &Settings| #[trigger] call_ensures(write, (s,), w) && s@ == settings;
    assert(call_ensures(write, (s,), w));
}

/// A session that could be written is the one that is stored, and all else stays as it was; one
/// that could not be written leaves everything as it was.
pub proof fn written_sessions_are_stored<W: FnOnce(&Session) -> Result<(), BridgeError>>(
    write: W,
    before: StorageView,
    session: SessionView,
    now: StorageView,
)
    requires
        session_kept(write, before, session, now),
    ensures
        (forall|s: &Session, w: Result<(), BridgeError>| #[trigger]
            call_ensures(write, (s,), w) && s@ == session ==> w is Ok) ==> now.session == Some(
            session,
        ) && now.settings == before.settings && now.keys == before.keys,
        (forall|s: &Session, w: Result<(), BridgeError>| #[trigger]
            call_ensures(write, (s,), w) && s@ == session ==> w is Err) ==> now == before,
        now.session == Some(session) || now == before,
        now.settings == before.settings && now.keys == before.keys,
{
    let w = choose|w: Result<(), BridgeError>| #[trigger]
        session_written(write, session, w) && now == (if w is Ok {
            StorageView { session: Some(session), ..before }
        } else {
            before
        });
    let s = choose|s: &Session| #[trigger] call_ensures(write, (s,), w) && s@ == session;
    assert(call_ensures(write, (s,), w));
}

/// A key is known by the SHA-256 of its plain text alone: a record answers to a key just if it has
/// that hash, and a new record answers to the key that it was made for. Its label is the one that
/// was given, and only the first twelve characters of the key are shown.
pub proof fn keys_are_known_by_their_hash(
    keys: Seq<KeyView>,
    id: Seq<char>,
    token: Seq<char>,
    label: Seq<char>,
    created: i64,
    presented: Seq<char>,
)
    ensures
        accepts_key(keys, presented) <==> exists|i: int|
            0 <= i < keys.len() && (#[trigger] keys[i]).hash == outside::hex_text(
                outside::sha256_of(encode_utf8(presented)),
            ),
        keys.len() == 0 ==> !accepts_key(keys, presented),
        key_record(id, token, label, created).hash == outside::hex_text(
            outside::sha256_of(encode_utf8(token)),
        ),
        key_record(id, token, label, created).id == id,
        key_record(id, token, label, created).created == created,
        label.len() > 0 ==> key_record(id, token, label, created).label == label,
        label.len() == 0 ==> key_record(id, token, label, created).label == "unnamed"@,
        token.len() >= 12 ==> key_record(id, token, label, created).prefix == token.take(12),
{
}

/// A key's plain text tells what it is for and holds every random byte: two keys are the same only
/// if their bytes are.
pub proof fn keys_hold_every_random_byte(a: Seq<u8>, b: Seq<u8>)
    ensures
        text::begins_with(token_of(a), "mdb_"@),
        token_of(a).len() == 4 + 2 * a.len(),
        token_of(a) == token_of(b) ==> a == b,
{
    reveal_strlit("mdb_");
    assert(token_of(a).take(4) =~= "mdb_"@);
    if token_of(a) == token_of(b) {
        let x = outside::hex_text(a);
        let y = outside::hex_text(b);
        assert(x =~= token_of(a).skip(4));
        assert(y =~= token_of(b).skip(4));
        assert(a.len() == b.len());
        assert forall|i: int| 0 <= i < a.len() implies a[i] == b[i] by {
            assert(x[2 * i] == outside::hex_lower(a[i] as int / 16));
            assert(y[2 * i] == outside::hex_lower(b[i] as int / 16));
            assert((2 * i + 1) / 2 == i && (2 * i + 1) % 2 == 1);
            assert(x[2 * i + 1] == outside::hex_lower(a[i] as int % 16));
            assert(y[2 * i + 1] == outside::hex_lower(b[i] as int % 16));
        }
        assert(a =~= b);
    }
}

/// The admin's password is what the kept hash accepts, and without a kept hash none is.
pub proof fn passwords_are_checked_against_the_hash(
    settings: SettingsView,
    hash: Seq<char>,
    password: Seq<char>,
)
    ensures
        settings.admin_password_hash is None ==> !accepts_password(settings, password),
        settings.admin_password_hash == Some(hash) ==> accepts_password(settings, password)
            == outside::argon2_accepts(hash, encode_utf8(password)),
{
}

/// A first run begins with nothing set up: no key is asked for, no password opens the control plane,
/// nothing is encrypted, and no page from elsewhere is let in.
pub proof fn first_runs_are_open(password: Seq<char>)
    ensures
        !default_settings().api_key_required,
        !accepts_password(default_settings(), password),
        default_settings().admin_password_hash is None,
        !default_settings().tls_enabled,
        default_settings().tls_cert_path is None && default_settings().tls_key_path is None,
        default_settings().cors_origins.len() == 0,
        default_settings().port == 8787,
{
}

} // verus!

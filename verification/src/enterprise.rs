//! Access control: roles, permissions, users, API keys, session tokens, the
//! audit log and the authentication manager.

use crate::clock::{
    duration_as_nanos, duration_from_secs, duration_secs, millis_of, nanos_of, secs_of, system_time_now,
    unix_millis_now, unix_nanos_be_bytes, unix_nanos_now, unix_secs_now,
};
use crate::random::{new_uuid_bytes, new_uuid_string};
use crate::text::{concat, digit_char, push_decimal, str_equal};
use sha2::Digest;
use std::collections::HashMap;
use std::time::{Duration, SystemTime};
use vstd::prelude::*;

verus! {

/// Why an enterprise operation failed.
#[derive(Debug)]
pub enum EnterpriseError {
    AuthenticationFailed(String),
    AuthorizationFailed(String),
    InvalidToken(String),
    TokenExpired,
    InsufficientPermissions { required: String, current: String },
    SecurityPolicyViolation(String),
    AuditLogError(String),
    ConfigurationError(String),
}

/// A permission that an operation asks for.
#[derive(Clone, Copy, Debug, PartialEq, Eq, Structural)]
pub enum Permission {
    ReadData,
    WriteData,
    ManageDatabase,
    ManageIndexes,
    ViewMetrics,
    ManageUsers,
    SystemConfig,
}

/// A user role.
#[derive(Debug)]
pub enum Role {
    SuperAdmin,
    DatabaseAdmin,
    DataManager,
    ReadOnlyUser,
    SystemMonitor,
    Custom(String),
}

/// Which permissions each role carries.
pub open spec fn role_grants(role: Role, p: Permission) -> bool {
    match role {
        Role::SuperAdmin => true,
        Role::DatabaseAdmin => p == Permission::ReadData || p == Permission::WriteData
            || p == Permission::ManageDatabase || p == Permission::ManageIndexes
            || p == Permission::ViewMetrics,
        Role::DataManager => p == Permission::ReadData || p == Permission::WriteData
            || p == Permission::ViewMetrics,
        Role::ReadOnlyUser => p == Permission::ReadData,
        Role::SystemMonitor => p == Permission::ViewMetrics,
        Role::Custom(_) => false,
    }
}

/// Two roles that are the same role.
pub open spec fn same_role(a: Role, b: Role) -> bool {
    match (a, b) {
        (Role::SuperAdmin, Role::SuperAdmin) => true,
        (Role::DatabaseAdmin, Role::DatabaseAdmin) => true,
        (Role::DataManager, Role::DataManager) => true,
        (Role::ReadOnlyUser, Role::ReadOnlyUser) => true,
        (Role::SystemMonitor, Role::SystemMonitor) => true,
        (Role::Custom(x), Role::Custom(y)) => x@ == y@,
        _ => false,
    }
}

/// Some role of `roles` carries `p`.
pub open spec fn any_role_grants(roles: Seq<Role>, p: Permission) -> bool {
    exists|i: int| 0 <= i < roles.len() && role_grants(#[trigger] roles[i], p)
}

/// The name under which a permission is displayed (its `Debug` form).
pub open spec fn permission_name(p: Permission) -> Seq<char> {
    match p {
        Permission::ReadData => "ReadData"@,
        Permission::WriteData => "WriteData"@,
        Permission::ManageDatabase => "ManageDatabase"@,
        Permission::ManageIndexes => "ManageIndexes"@,
        Permission::ViewMetrics => "ViewMetrics"@,
        Permission::ManageUsers => "ManageUsers"@,
        Permission::SystemConfig => "SystemConfig"@,
    }
}

/// The name under which a role is displayed (its `Debug` form, for a custom
/// role the name quoted as given).
pub open spec fn role_name(r: Role) -> Seq<char> {
    match r {
        Role::SuperAdmin => "SuperAdmin"@,
        Role::DatabaseAdmin => "DatabaseAdmin"@,
        Role::DataManager => "DataManager"@,
        Role::ReadOnlyUser => "ReadOnlyUser"@,
        Role::SystemMonitor => "SystemMonitor"@,
        Role::Custom(s) => "Custom(\""@ + s@ + "\")"@,
    }
}

/// The names of `roles`, joined by ", ".
pub open spec fn role_names(roles: Seq<Role>) -> Seq<char>
    decreases roles.len(),
{
    if roles.len() == 0 {
        Seq::empty()
    } else if roles.len() == 1 {
        role_name(roles[0])
    } else {
        role_names(roles.drop_last()) + ", "@ + role_name(roles.last())
    }
}

impl Permission {
    /// The name of the permission.
    pub fn name(&self) -> (s: &'static str)
        ensures
            s@ == permission_name(*self),
    {
        match self {
            Permission::ReadData => {
                proof { reveal_strlit("ReadData"); }
                "ReadData"
            },
            Permission::WriteData => {
                proof { reveal_strlit("WriteData"); }
                "WriteData"
            },
            Permission::ManageDatabase => {
                proof { reveal_strlit("ManageDatabase"); }
                "ManageDatabase"
            },
            Permission::ManageIndexes => {
                proof { reveal_strlit("ManageIndexes"); }
                "ManageIndexes"
            },
            Permission::ViewMetrics => {
                proof { reveal_strlit("ViewMetrics"); }
                "ViewMetrics"
            },
            Permission::ManageUsers => {
                proof { reveal_strlit("ManageUsers"); }
                "ManageUsers"
            },
            Permission::SystemConfig => {
                proof { reveal_strlit("SystemConfig"); }
                "SystemConfig"
            },
        }
    }
}

impl Role {
    /// Whether this role carries `permission`.
    pub fn has_permission(&self, permission: &Permission) -> (r: bool)
        ensures
            r == role_grants(*self, *permission),
    {
        match self {
            Role::SuperAdmin => true,
            Role::DatabaseAdmin => match permission {
                Permission::ReadData | Permission::WriteData | Permission::ManageDatabase
                | Permission::ManageIndexes | Permission::ViewMetrics => true,
                _ => false,
            },
            Role::DataManager => match permission {
                Permission::ReadData | Permission::WriteData | Permission::ViewMetrics => true,
                _ => false,
            },
            Role::ReadOnlyUser => match permission {
                Permission::ReadData => true,
                _ => false,
            },
            Role::SystemMonitor => match permission {
                Permission::ViewMetrics => true,
                _ => false,
            },
            Role::Custom(_) => false,
        }
    }

    /// A copy of this role.
    pub fn duplicate(&self) -> (r: Role)
        ensures
            same_role(r, *self),
    {
        match self {
            Role::SuperAdmin => Role::SuperAdmin,
            Role::DatabaseAdmin => Role::DatabaseAdmin,
            Role::DataManager => Role::DataManager,
            Role::ReadOnlyUser => Role::ReadOnlyUser,
            Role::SystemMonitor => Role::SystemMonitor,
            Role::Custom(s) => Role::Custom(s.clone()),
        }
    }

    /// The displayed name of the role.
    pub fn name(&self) -> (s: String)
        ensures
            s@ == role_name(*self),
    {
        match self {
            Role::SuperAdmin => String::from_str("SuperAdmin"),
            Role::DatabaseAdmin => String::from_str("DatabaseAdmin"),
            Role::DataManager => String::from_str("DataManager"),
            Role::ReadOnlyUser => String::from_str("ReadOnlyUser"),
            Role::SystemMonitor => String::from_str("SystemMonitor"),
            Role::Custom(n) => {
                let mut s = String::from_str("Custom(\"");
                s.append(n.as_str());
                s.append("\")");
                s
            },
        }
    }
}

/// Whether some role of `roles` carries `permission`.
fn roles_grant(roles: &Vec<Role>, permission: &Permission) -> (r: bool)
    ensures
        r == any_role_grants(roles@, *permission),
{
    let mut i: usize = 0;
    while i < roles.len()
        invariant
            i <= roles@.len(),
            forall|j: int| 0 <= j < i ==> !role_grants(#[trigger] roles@[j], *permission),
        decreases roles.len() - i,
    {
        if roles[i].has_permission(permission) {
            return true;
        }
        i = i + 1;
    }
    false
}

/// Copies of `roles`, in order.
fn duplicate_roles(roles: &Vec<Role>) -> (r: Vec<Role>)
    ensures
        r@.len() == roles@.len(),
        forall|i: int| 0 <= i < r@.len() ==> same_role(#[trigger] r@[i], roles@[i]),
{
    let mut r: Vec<Role> = Vec::new();
    let mut i: usize = 0;
    while i < roles.len()
        invariant
            i <= roles@.len(),
            r@.len() == i,
            forall|j: int| 0 <= j < i ==> same_role(#[trigger] r@[j], roles@[j]),
        decreases roles.len() - i,
    {
        r.push(roles[i].duplicate());
        i = i + 1;
    }
    r
}

/// The names of `roles`, joined by ", ".
fn join_role_names(roles: &Vec<Role>) -> (s: String)
    ensures
        s@ == role_names(roles@),
{
    let mut s = String::new();
    let mut i: usize = 0;
    while i < roles.len()
        invariant
            i <= roles@.len(),
            s@ == role_names(roles@.subrange(0, i as int)),
        decreases roles.len() - i,
    {
        if i > 0 {
            s.append(", ");
        }
        let name = roles[i].name();
        s.append(name.as_str());
        proof {
            let sub = roles@.subrange(0, i + 1);
            assert(sub.drop_last() =~= roles@.subrange(0, i as int));
            assert(sub.last() == roles@[i as int]);
            if i == 0 {
                assert(s@ =~= role_names(sub));
            } else {
                assert(s@ =~= role_names(sub));
            }
        }
        i = i + 1;
    }
    assert(roles@.subrange(0, roles@.len() as int) =~= roles@);
    s
}

/// The lowercase hexadecimal digit of `n` (0 to 15).
pub open spec fn hex_digit(n: nat) -> char {
    if n < 10 {
        digit_char(n)
    } else if n == 10 {
        'a'
    } else if n == 11 {
        'b'
    } else if n == 12 {
        'c'
    } else if n == 13 {
        'd'
    } else if n == 14 {
        'e'
    } else {
        'f'
    }
}

/// The lowercase hexadecimal rendering of `bytes`, two digits per byte.
pub open spec fn hex_lower(bytes: Seq<u8>) -> Seq<char> {
    Seq::new(
        2 * bytes.len(),
        |i: int|
            if i % 2 == 0 {
                hex_digit((bytes[i / 2] / 16) as nat)
            } else {
                hex_digit((bytes[i / 2] % 16) as nat)
            },
    )
}

/// The SHA-256 digest of `data`.
pub uninterp spec fn sha256(data: Seq<u8>) -> Seq<u8>;

/// Calls `sha2::Sha256::digest` (the `Digest` trait): the 32-byte SHA-256 digest of `data`.
#[verifier::external_body]
fn sha256_digest(data: &Vec<u8>) -> (d: Vec<u8>)
    ensures
        d@ == sha256(data@),
        d@.len() == 32,
{
    sha2::Sha256::digest(data.as_slice()).to_vec()
}

/// Calls `hex::encode`, which renders each byte as two lowercase hexadecimal digits.
#[verifier::external_body]
fn hex_encode(data: &Vec<u8>) -> (s: String)
    ensures
        s@ == hex_lower(data@),
{
    hex::encode(data.as_slice())
}

/// An API key as generated: "gvdb_" followed by the first 32 hexadecimal
/// digits of the SHA-256 digest of some input.
pub open spec fn generated_key(key: Seq<char>) -> bool {
    exists|input: Seq<u8>|
        sha256(input).len() == 32 && key == "gvdb_"@ + (#[trigger] hex_lower(sha256(input))).subrange(0, 32)
}

/// An API key.
#[derive(Debug)]
pub struct ApiKey {
    pub key: String,
    pub name: String,
    /// Nanoseconds since the Unix epoch.
    pub created_at: u128,
    /// Nanoseconds since the Unix epoch.
    pub expires_at: Option<u128>,
    /// Nanoseconds since the Unix epoch.
    pub last_used: Option<u128>,
    pub is_active: bool,
}

/// Two keys that hold the same values.
pub open spec fn same_api_key(a: ApiKey, b: ApiKey) -> bool {
    &&& a.key@ == b.key@
    &&& a.name@ == b.name@
    &&& a.created_at == b.created_at
    &&& a.expires_at == b.expires_at
    &&& a.last_used == b.last_used
    &&& a.is_active == b.is_active
}

/// `n`, or `u64::MAX` when it is larger.
pub open spec fn capped(n: int) -> u64 {
    if n <= u64::MAX {
        n as u64
    } else {
        u64::MAX
    }
}

/// `n`, or `u128::MAX` when it is larger.
pub open spec fn capped_nanos(n: int) -> u128 {
    if n <= u128::MAX {
        n as u128
    } else {
        u128::MAX
    }
}

/// When a key created at `created_at` (nanoseconds) with lifetime
/// `expires_in` expires: the duration later, to the nanosecond.
pub open spec fn key_expiry(created_at: u128, expires_in: Option<Duration>) -> Option<u128> {
    match expires_in {
        None => None,
        Some(d) => Some(capped_nanos(created_at + nanos_of(d))),
    }
}

/// A key is valid at `now` (nanoseconds since the epoch) when it is active
/// and has not expired.
pub open spec fn key_valid_at(k: ApiKey, now: u128) -> bool {
    k.is_active && match k.expires_at {
        None => true,
        Some(e) => now < e,
    }
}

impl ApiKey {
    /// A fresh active key named `name`, expiring `expires_in` after its creation if given.
    pub fn new(name: String, expires_in: Option<Duration>) -> (k: ApiKey)
        ensures
            k.name == name,
            generated_key(k.key@),
            k.key@.len() == 37,
            k.is_active,
            k.last_used.is_none(),
            k.expires_at == key_expiry(k.created_at, expires_in),
            k.expires_at.is_some() ==> k.expires_at.unwrap() >= k.created_at,
    {
        let key = Self::generate_key();
        let created_at = unix_nanos_now();
        let expires_at = match expires_in {
            Some(d) => Some(created_at.saturating_add(duration_as_nanos(&d))),
            None => None,
        };
        ApiKey { key, name, created_at, expires_at, last_used: None, is_active: true }
    }

    /// A fresh random key: "gvdb_" and 32 hexadecimal digits of the SHA-256
    /// digest of a random UUID and the current time in nanoseconds.
    pub fn generate_key() -> (k: String)
        ensures
            generated_key(k@),
            k@.len() == 37,
    {
        let mut input = new_uuid_bytes();
        let mut time_bytes = unix_nanos_be_bytes();
        input.append(&mut time_bytes);
        let digest = sha256_digest(&input);
        let digits = hex_encode(&digest);
        let head = digits.as_str().substring_char(0, 32);
        let mut k = String::from_str("gvdb_");
        k.append(head);
        proof {
            reveal_strlit("gvdb_");
            assert(k@ == "gvdb_"@ + hex_lower(sha256(input@)).subrange(0, 32));
        }
        k
    }

    /// Whether the key is valid at `now` (nanoseconds since the epoch).
    pub fn is_valid_at(&self, now: u128) -> (r: bool)
        ensures
            r == key_valid_at(*self, now),
    {
        if !self.is_active {
            return false;
        }
        match self.expires_at {
            Some(e) => now < e,
            None => true,
        }
    }

    /// Whether the key is valid now: active and, when it expires, not yet expired.
    pub fn is_valid(&self) -> (r: bool)
        ensures
            !self.is_active ==> !r,
            self.is_active && self.expires_at.is_none() ==> r,
    {
        self.is_valid_at(unix_nanos_now())
    }

    /// Records a use of the key now.
    pub fn mark_used(&mut self)
        ensures
            final(self).last_used.is_some(),
            final(self).key == old(self).key,
            final(self).name == old(self).name,
            final(self).created_at == old(self).created_at,
            final(self).expires_at == old(self).expires_at,
            final(self).is_active == old(self).is_active,
    {
        self.last_used = Some(unix_nanos_now());
    }

    /// A copy of this key.
    pub fn duplicate(&self) -> (r: ApiKey)
        ensures
            same_api_key(r, *self),
    {
        ApiKey {
            key: self.key.clone(),
            name: self.name.clone(),
            created_at: self.created_at,
            expires_at: self.expires_at,
            last_used: self.last_used,
            is_active: self.is_active,
        }
    }
}

/// A user account.
#[derive(Debug)]
pub struct User {
    pub id: String,
    pub username: String,
    pub email: Option<String>,
    pub roles: Vec<Role>,
    pub api_keys: Vec<ApiKey>,
    pub created_at: SystemTime,
    pub last_login: Option<SystemTime>,
    pub is_active: bool,
    pub metadata: HashMap<String, String>,
}

/// The view of an optional string.
pub open spec fn opt_str(o: Option<String>) -> Option<Seq<char>> {
    match o {
        None => None,
        Some(s) => Some(s@),
    }
}

/// Two users that hold the same values.
pub open spec fn same_user(a: User, b: User) -> bool {
    &&& a.id@ == b.id@
    &&& a.username@ == b.username@
    &&& opt_str(a.email) == opt_str(b.email)
    &&& a.roles@.len() == b.roles@.len()
    &&& forall|i: int| 0 <= i < a.roles@.len() ==> same_role(#[trigger] a.roles@[i], b.roles@[i])
    &&& a.api_keys@.len() == b.api_keys@.len()
    &&& forall|i: int| 0 <= i < a.api_keys@.len() ==> same_api_key(#[trigger] a.api_keys@[i], b.api_keys@[i])
    &&& a.created_at == b.created_at
    &&& a.last_login == b.last_login
    &&& a.is_active == b.is_active
    &&& a.metadata@ == b.metadata@
}

/// The position of the first key of `keys` whose value is `key`, if any.
pub open spec fn first_key_position(keys: Seq<ApiKey>, key: Seq<char>) -> Option<int> {
    if exists|i: int| 0 <= i < keys.len() && (#[trigger] keys[i]).key@ == key {
        let i = choose|i: int|
            0 <= i < keys.len() && (#[trigger] keys[i]).key@ == key && forall|j: int|
                0 <= j < i ==> (#[trigger] keys[j]).key@ != key;
        Some(i)
    } else {
        None
    }
}

impl User {
    /// Whether the user is active and one of its roles carries `permission`.
    pub fn has_permission(&self, permission: &Permission) -> (r: bool)
        ensures
            r == (self.is_active && any_role_grants(self.roles@, *permission)),
    {
        if !self.is_active {
            return false;
        }
        roles_grant(&self.roles, permission)
    }

    /// Creates a key named `name` for the user and returns its value.
    pub fn create_api_key(&mut self, name: String, expires_in: Option<Duration>) -> (key: String)
        ensures
            final(self).api_keys@.len() == old(self).api_keys@.len() + 1,
            final(self).api_keys@.subrange(0, old(self).api_keys@.len() as int) == old(self).api_keys@,
            final(self).api_keys@.last().key@ == key@,
            final(self).api_keys@.last().name == name,
            final(self).api_keys@.last().is_active,
            final(self).api_keys@.last().last_used.is_none(),
            final(self).api_keys@.last().expires_at == key_expiry(final(self).api_keys@.last().created_at, expires_in),
            generated_key(key@),
            key@.len() == 37,
            final(self).id == old(self).id,
            final(self).username == old(self).username,
            final(self).email == old(self).email,
            final(self).roles == old(self).roles,
            final(self).created_at == old(self).created_at,
            final(self).last_login == old(self).last_login,
            final(self).is_active == old(self).is_active,
            final(self).metadata == old(self).metadata,
    {
        let api_key = ApiKey::new(name, expires_in);
        let key_value = api_key.key.clone();
        self.api_keys.push(api_key);
        assert(self.api_keys@.subrange(0, old(self).api_keys@.len() as int) =~= old(self).api_keys@);
        key_value
    }

    /// Removes the first key whose value is `key`; says whether there was one.
    pub fn revoke_api_key(&mut self, key: &str) -> (removed: bool)
        ensures
            removed == first_key_position(old(self).api_keys@, key@).is_some(),
            removed ==> final(self).api_keys@ == old(self).api_keys@.remove(
                first_key_position(old(self).api_keys@, key@).unwrap(),
            ),
            !removed ==> *final(self) == *old(self),
            final(self).id == old(self).id,
            final(self).username == old(self).username,
            final(self).email == old(self).email,
            final(self).roles == old(self).roles,
            final(self).created_at == old(self).created_at,
            final(self).last_login == old(self).last_login,
            final(self).is_active == old(self).is_active,
            final(self).metadata == old(self).metadata,
    {
        let mut i: usize = 0;
        while i < self.api_keys.len()
            invariant
                i <= self.api_keys@.len(),
                *self == *old(self),
                forall|j: int| 0 <= j < i ==> (#[trigger] self.api_keys@[j]).key@ != key@,
            decreases self.api_keys.len() - i,
        {
            if str_equal(self.api_keys[i].key.as_str(), key) {
                proof {
                    let p = first_key_position(old(self).api_keys@, key@);
                    assert(old(self).api_keys@[i as int].key@ == key@);
                    let c = choose|c: int|
                        0 <= c < old(self).api_keys@.len() && (#[trigger] old(self).api_keys@[c]).key@
                            == key@ && forall|j: int|
                            0 <= j < c ==> (#[trigger] old(self).api_keys@[j]).key@ != key@;
                    assert(c == i as int) by {
                        if c < i {
                            assert(old(self).api_keys@[c].key@ != key@);
                        } else if c > i {
                            assert(old(self).api_keys@[i as int].key@ != key@);
                        }
                    }
                }
                self.api_keys.remove(i);
                return true;
            }
            i = i + 1;
        }
        false
    }

    /// A copy of this user.
    pub fn duplicate(&self) -> (r: User)
        ensures
            same_user(r, *self),
    {
        let email = match &self.email {
            Some(e) => Some(e.clone()),
            None => None,
        };
        let mut api_keys: Vec<ApiKey> = Vec::new();
        let mut i: usize = 0;
        while i < self.api_keys.len()
            invariant
                i <= self.api_keys@.len(),
                api_keys@.len() == i,
                forall|j: int| 0 <= j < i ==> same_api_key(#[trigger] api_keys@[j], self.api_keys@[j]),
            decreases self.api_keys.len() - i,
        {
            api_keys.push(self.api_keys[i].duplicate());
            i = i + 1;
        }
        User {
            id: self.id.clone(),
            username: self.username.clone(),
            email,
            roles: duplicate_roles(&self.roles),
            api_keys,
            created_at: self.created_at,
            last_login: self.last_login,
            is_active: self.is_active,
            metadata: self.metadata.clone(),
        }
    }
}

/// A session token.
#[derive(Debug)]
pub struct JwtToken {
    pub user_id: String,
    pub username: String,
    pub roles: Vec<Role>,
    /// Seconds since the Unix epoch.
    pub issued_at: u64,
    /// Seconds since the Unix epoch.
    pub expires_at: u64,
    pub session_id: String,
}

/// Two tokens that hold the same values.
pub open spec fn same_token(a: JwtToken, b: JwtToken) -> bool {
    &&& a.user_id@ == b.user_id@
    &&& a.username@ == b.username@
    &&& a.roles@.len() == b.roles@.len()
    &&& forall|i: int| 0 <= i < a.roles@.len() ==> same_role(#[trigger] a.roles@[i], b.roles@[i])
    &&& a.issued_at == b.issued_at
    &&& a.expires_at == b.expires_at
    &&& a.session_id@ == b.session_id@
}

impl JwtToken {
    /// A token for `user`, issued now and expiring `expires_in` later, with a
    /// fresh session id.
    pub fn new(user: &User, expires_in: Duration) -> (t: JwtToken)
        ensures
            t.user_id@ == user.id@,
            t.username@ == user.username@,
            t.roles@.len() == user.roles@.len(),
            forall|i: int| 0 <= i < t.roles@.len() ==> same_role(#[trigger] t.roles@[i], user.roles@[i]),
            t.expires_at == capped(t.issued_at + secs_of(expires_in)),
            t.expires_at >= t.issued_at,
            t.session_id@.len() == 36,
    {
        let now = unix_secs_now();
        let expires_at = now.saturating_add(duration_secs(&expires_in));
        JwtToken {
            user_id: user.id.clone(),
            username: user.username.clone(),
            roles: duplicate_roles(&user.roles),
            issued_at: now,
            expires_at,
            session_id: new_uuid_string(),
        }
    }

    /// Whether the token is valid at `now` (seconds since the epoch).
    pub fn is_valid_at(&self, now: u64) -> (r: bool)
        ensures
            r == (now < self.expires_at),
    {
        now < self.expires_at
    }

    /// Whether the token is valid now.
    pub fn is_valid(&self) -> (r: bool)
        ensures
            self.expires_at == 0 ==> !r,
    {
        self.is_valid_at(unix_secs_now())
    }

    /// Whether the token is valid at `now` and one of its roles carries `permission`.
    pub fn has_permission_at(&self, permission: &Permission, now: u64) -> (r: bool)
        ensures
            r == (now < self.expires_at && any_role_grants(self.roles@, *permission)),
    {
        if !self.is_valid_at(now) {
            return false;
        }
        roles_grant(&self.roles, permission)
    }

    /// Whether the token is valid now and one of its roles carries `permission`.
    pub fn has_permission(&self, permission: &Permission) -> (r: bool)
        ensures
            r ==> any_role_grants(self.roles@, *permission),
            self.expires_at == 0 ==> !r,
    {
        self.has_permission_at(permission, unix_secs_now())
    }

    /// A copy of this token.
    pub fn duplicate(&self) -> (r: JwtToken)
        ensures
            same_token(r, *self),
    {
        JwtToken {
            user_id: self.user_id.clone(),
            username: self.username.clone(),
            roles: duplicate_roles(&self.roles),
            issued_at: self.issued_at,
            expires_at: self.expires_at,
            session_id: self.session_id.clone(),
        }
    }
}

/// The outcome recorded in an audit entry.
#[derive(Debug)]
pub enum AuditResult {
    Success,
    Failure(String),
    Denied(String),
}

/// An audit log entry.
#[derive(Debug)]
pub struct AuditLogEntry {
    pub id: String,
    pub timestamp: SystemTime,
    pub user_id: Option<String>,
    pub action: String,
    pub resource: String,
    pub details: HashMap<String, String>,
    pub result: AuditResult,
    pub ip_address: Option<String>,
    pub user_agent: Option<String>,
}

/// The view of an audit result.
pub open spec fn audit_result_view(r: AuditResult) -> (nat, Seq<char>) {
    match r {
        AuditResult::Success => (0, Seq::empty()),
        AuditResult::Failure(m) => (1, m@),
        AuditResult::Denied(m) => (2, m@),
    }
}

/// Two audit entries that hold the same values.
pub open spec fn same_audit_entry(a: AuditLogEntry, b: AuditLogEntry) -> bool {
    &&& a.id@ == b.id@
    &&& a.timestamp == b.timestamp
    &&& opt_str(a.user_id) == opt_str(b.user_id)
    &&& a.action@ == b.action@
    &&& a.resource@ == b.resource@
    &&& a.details@ == b.details@
    &&& audit_result_view(a.result) == audit_result_view(b.result)
    &&& opt_str(a.ip_address) == opt_str(b.ip_address)
    &&& opt_str(a.user_agent) == opt_str(b.user_agent)
}

fn clone_opt_string(o: &Option<String>) -> (r: Option<String>)
    ensures
        opt_str(r) == opt_str(*o),
{
    match o {
        Some(s) => Some(s.clone()),
        None => None,
    }
}

impl AuditResult {
    /// A copy of this result.
    pub fn duplicate(&self) -> (r: AuditResult)
        ensures
            audit_result_view(r) == audit_result_view(*self),
    {
        match self {
            AuditResult::Success => AuditResult::Success,
            AuditResult::Failure(m) => AuditResult::Failure(m.clone()),
            AuditResult::Denied(m) => AuditResult::Denied(m.clone()),
        }
    }
}

impl AuditLogEntry {
    /// A copy of this entry.
    pub fn duplicate(&self) -> (r: AuditLogEntry)
        ensures
            same_audit_entry(r, *self),
    {
        AuditLogEntry {
            id: self.id.clone(),
            timestamp: self.timestamp,
            user_id: clone_opt_string(&self.user_id),
            action: self.action.clone(),
            resource: self.resource.clone(),
            details: self.details.clone(),
            result: self.result.duplicate(),
            ip_address: clone_opt_string(&self.ip_address),
            user_agent: clone_opt_string(&self.user_agent),
        }
    }
}

/// The security policy.
#[derive(Debug)]
pub struct SecurityPolicy {
    pub min_password_length: usize,
    pub require_strong_password: bool,
    pub max_login_attempts: usize,
    pub account_lockout_duration: Duration,
    pub jwt_expiry: Duration,
    pub api_key_default_expiry: Option<Duration>,
    pub enable_ip_whitelist: bool,
    pub ip_whitelist: Vec<String>,
    pub require_2fa: bool,
    pub session_timeout: Duration,
}

impl Default for SecurityPolicy {
    /// The default policy: passwords of at least 8 characters and strong,
    /// 5 login attempts before a lockout of 5 minutes, hour-long tokens, API keys
    /// valid for 30 days, no IP whitelist, no second factor, 8-hour sessions.
    fn default() -> (p: SecurityPolicy)
        ensures
            p.min_password_length == 8,
            p.require_strong_password,
            p.max_login_attempts == 5,
            secs_of(p.account_lockout_duration) == 300,
            millis_of(p.account_lockout_duration) == 300 * 1000,
            nanos_of(p.account_lockout_duration) == 300 * 1_000_000_000,
            secs_of(p.jwt_expiry) == 3600,
            millis_of(p.jwt_expiry) == 3600 * 1000,
            nanos_of(p.jwt_expiry) == 3600 * 1_000_000_000,
            p.api_key_default_expiry matches Some(d) && secs_of(d) == 86400 * 30 && millis_of(d) == 86400 * 30 * 1000
                && nanos_of(d) == 86400 * 30 * 1_000_000_000,
            !p.enable_ip_whitelist,
            p.ip_whitelist@.len() == 0,
            !p.require_2fa,
            secs_of(p.session_timeout) == 3600 * 8,
            millis_of(p.session_timeout) == 3600 * 8 * 1000,
            nanos_of(p.session_timeout) == 3600 * 8 * 1_000_000_000,
    {
        SecurityPolicy {
            min_password_length: 8,
            require_strong_password: true,
            max_login_attempts: 5,
            account_lockout_duration: duration_from_secs(300),
            jwt_expiry: duration_from_secs(3600),
            api_key_default_expiry: Some(duration_from_secs(86400 * 30)),
            enable_ip_whitelist: false,
            ip_whitelist: Vec::new(),
            require_2fa: false,
            session_timeout: duration_from_secs(3600 * 8),
        }
    }
}

impl SecurityPolicy {
    /// A copy of this policy.
    pub fn duplicate(&self) -> (p: SecurityPolicy)
        ensures
            p.min_password_length == self.min_password_length,
            p.require_strong_password == self.require_strong_password,
            p.max_login_attempts == self.max_login_attempts,
            p.account_lockout_duration == self.account_lockout_duration,
            p.jwt_expiry == self.jwt_expiry,
            p.api_key_default_expiry == self.api_key_default_expiry,
            p.enable_ip_whitelist == self.enable_ip_whitelist,
            p.ip_whitelist@.len() == self.ip_whitelist@.len(),
            p.require_2fa == self.require_2fa,
            p.session_timeout == self.session_timeout,
    {
        SecurityPolicy {
            min_password_length: self.min_password_length,
            require_strong_password: self.require_strong_password,
            max_login_attempts: self.max_login_attempts,
            account_lockout_duration: self.account_lockout_duration,
            jwt_expiry: self.jwt_expiry,
            api_key_default_expiry: self.api_key_default_expiry,
            enable_ip_whitelist: self.enable_ip_whitelist,
            ip_whitelist: self.ip_whitelist.clone(),
            require_2fa: self.require_2fa,
            session_timeout: self.session_timeout,
        }
    }
}

/// The record of failed logins of one user name.
#[derive(Debug)]
pub struct LoginAttempts {
    pub username: String,
    pub count: usize,
    /// Milliseconds since the Unix epoch.
    pub last_attempt: u64,
}

/// The most recent audit entries kept.
pub const AUDIT_LOG_CAPACITY: usize = 10000;

/// How many of the oldest audit entries are dropped when the log overflows.
pub const AUDIT_LOG_TRIM: usize = 1000;

/// How long a locked account stays locked, in milliseconds.
pub const LOCKOUT_MILLIS: u64 = 300000;

/// The audit log after appending `e` to `log`: past the capacity, the oldest
/// thousand entries go.
pub open spec fn audit_append(log: Seq<AuditLogEntry>, e: AuditLogEntry) -> Seq<AuditLogEntry> {
    let l = log.push(e);
    if l.len() > AUDIT_LOG_CAPACITY {
        l.subrange(AUDIT_LOG_TRIM as int, l.len() as int)
    } else {
        l
    }
}

/// The position of the login record of `username`, if any.
pub open spec fn attempts_position(a: Seq<LoginAttempts>, username: Seq<char>) -> Option<int> {
    if exists|i: int| 0 <= i < a.len() && (#[trigger] a[i]).username@ == username {
        Some(
            choose|i: int|
                0 <= i < a.len() && (#[trigger] a[i]).username@ == username && forall|j: int|
                    0 <= j < i ==> (#[trigger] a[j]).username@ != username,
        )
    } else {
        None
    }
}

/// Whether logins of `username` are locked at `now` (milliseconds): it
/// failed the policy's maximum of times, the last less than five minutes
/// before.
pub open spec fn login_locked(a: Seq<LoginAttempts>, policy: SecurityPolicy, username: Seq<char>, now: u64) -> bool {
    attempts_position(a, username).is_some() && {
        let e = a[attempts_position(a, username).unwrap()];
        e.count >= policy.max_login_attempts && now < e.last_attempt + LOCKOUT_MILLIS
    }
}

/// The sessions of `ss` still valid at `now` (seconds), in order.
pub open spec fn sessions_valid_at(ss: Seq<JwtToken>, now: u64) -> Seq<JwtToken> {
    ss.filter(|t: JwtToken| now < t.expires_at)
}

/// The authentication manager: users, sessions, the audit log, the security
/// policy and the failed-login records.
#[derive(Debug)]
pub struct AuthenticationManager {
    users: Vec<User>,
    sessions: Vec<JwtToken>,
    audit_log: Vec<AuditLogEntry>,
    security_policy: SecurityPolicy,
    login_attempts: Vec<LoginAttempts>,
}

impl AuthenticationManager {
    /// The users, in order of creation.
    pub closed spec fn users(&self) -> Seq<User> {
        self.users@
    }

    /// The open sessions.
    pub closed spec fn sessions(&self) -> Seq<JwtToken> {
        self.sessions@
    }

    /// The audit log, oldest first.
    pub closed spec fn audit(&self) -> Seq<AuditLogEntry> {
        self.audit_log@
    }

    /// The failed-login records.
    pub closed spec fn attempts(&self) -> Seq<LoginAttempts> {
        self.login_attempts@
    }

    /// The security policy in force.
    pub closed spec fn policy(&self) -> SecurityPolicy {
        self.security_policy
    }

    /// A manager with no users, sessions, audit entries or failed logins, and
    /// the default policy.
    pub fn new() -> (m: AuthenticationManager)
        ensures
            m.users().len() == 0,
            m.sessions().len() == 0,
            m.audit().len() == 0,
            m.attempts().len() == 0,
            m.policy().max_login_attempts == 5,
    {
        AuthenticationManager {
            users: Vec::new(),
            sessions: Vec::new(),
            audit_log: Vec::new(),
            security_policy: SecurityPolicy::default(),
            login_attempts: Vec::new(),
        }
    }

    /// Appends an audit entry with a fresh id and the current time; past
    /// 10000 entries the oldest 1000 are dropped.
    pub fn log_audit_event(
        &mut self,
        user_id: Option<String>,
        action: String,
        resource: String,
        details: HashMap<String, String>,
        result: AuditResult,
        ip_address: Option<String>,
        user_agent: Option<String>,
    )
        ensures
            final(self).audit().len() == (if old(self).audit().len() + 1 > AUDIT_LOG_CAPACITY {
                old(self).audit().len() + 1 - AUDIT_LOG_TRIM
            } else {
                old(self).audit().len() + 1int
            }),
            final(self).audit() == audit_append(old(self).audit(), final(self).audit().last()),
            final(self).audit().last().user_id == user_id,
            final(self).audit().last().action == action,
            final(self).audit().last().resource == resource,
            final(self).audit().last().details == details,
            final(self).audit().last().result == result,
            final(self).audit().last().ip_address == ip_address,
            final(self).audit().last().user_agent == user_agent,
            final(self).users() == old(self).users(),
            final(self).sessions() == old(self).sessions(),
            final(self).attempts() == old(self).attempts(),
            final(self).policy() == old(self).policy(),
    {
        let entry = AuditLogEntry {
            id: new_uuid_string(),
            timestamp: system_time_now(),
            user_id,
            action,
            resource,
            details,
            result,
            ip_address,
            user_agent,
        };
        let ghost e = entry;
        self.audit_log.push(entry);
        if self.audit_log.len() > AUDIT_LOG_CAPACITY {
            let kept = self.audit_log.split_off(AUDIT_LOG_TRIM);
            self.audit_log = kept;
        }
        assert(self.audit_log@.last() == e);
        assert(self.audit_log@ =~= audit_append(old(self).audit_log@, e));
    }

    fn log_simple(&mut self, user_id: Option<String>, action: &str, resource: String, result: AuditResult)
        ensures
            final(self).audit() == audit_append(old(self).audit(), final(self).audit().last()),
            final(self).audit().last().user_id == user_id,
            final(self).audit().last().action@ == action@,
            final(self).audit().last().resource == resource,
            final(self).audit().last().details@ == Map::<String, String>::empty(),
            final(self).audit().last().result == result,
            final(self).users() == old(self).users(),
            final(self).sessions() == old(self).sessions(),
            final(self).attempts() == old(self).attempts(),
            final(self).policy() == old(self).policy(),
    {
        self.log_audit_event(user_id, String::from_str(action), resource, HashMap::new(), result, None, None);
    }

    /// Creates an administrator (role `SuperAdmin`) named `username` with a
    /// fresh id, records the creation in the audit log, and returns the id.
    pub fn create_admin_user(&mut self, username: String, _password: String) -> (r: Result<String, EnterpriseError>)
        ensures
            r.is_ok(),
            final(self).users().len() == old(self).users().len() + 1,
            final(self).users().subrange(0, old(self).users().len() as int) == old(self).users(),
            final(self).users().last().id@ == r.unwrap()@,
            final(self).users().last().username == username,
            final(self).users().last().roles@.len() == 1,
            final(self).users().last().roles@[0] == Role::SuperAdmin,
            final(self).users().last().is_active,
            final(self).users().last().api_keys@.len() == 0,
            final(self).audit().last().action@ == "CREATE_ADMIN_USER"@,
            final(self).audit().last().resource@ == "user:"@ + username@,
            final(self).sessions() == old(self).sessions(),
            final(self).attempts() == old(self).attempts(),
    {
        let user_id = new_uuid_string();
        let resource = concat("user:", username.as_str());
        let mut roles = Vec::new();
        roles.push(Role::SuperAdmin);
        let user = User {
            id: user_id.clone(),
            username,
            email: None,
            roles,
            api_keys: Vec::new(),
            created_at: system_time_now(),
            last_login: None,
            is_active: true,
            metadata: HashMap::new(),
        };
        self.users.push(user);
        assert(self.users@.subrange(0, old(self).users@.len() as int) =~= old(self).users@);
        let ghost users = self.users@;
        self.log_simple(None, "CREATE_ADMIN_USER", resource, AuditResult::Success);
        proof { reveal_strlit("CREATE_ADMIN_USER"); reveal_strlit("user:"); }
        Ok(user_id)
    }

    /// Whether a user named `username` exists.
    pub fn username_taken(&self, username: &str) -> (r: bool)
        ensures
            r == exists|i: int| 0 <= i < self.users().len() && (#[trigger] self.users()[i]).username@ == username@,
    {
        let mut i: usize = 0;
        while i < self.users.len()
            invariant
                i <= self.users@.len(),
                forall|j: int| 0 <= j < i ==> (#[trigger] self.users@[j]).username@ != username@,
            decreases self.users.len() - i,
        {
            if str_equal(self.users[i].username.as_str(), username) {
                return true;
            }
            i = i + 1;
        }
        false
    }

    /// Creates an active user named `username` with `email` and `roles` under
    /// a fresh id and records it in the audit log; refuses a name already in use.
    pub fn create_user(&mut self, username: String, email: Option<String>, roles: Vec<Role>) -> (r: Result<String, EnterpriseError>)
        ensures
            r.is_err() == exists|i: int| 0 <= i < old(self).users().len()
                && (#[trigger] old(self).users()[i]).username@ == username@,
            r.is_err() ==> final(self).users() == old(self).users() && final(self).audit() == old(self).audit()
                && r matches Err(EnterpriseError::ConfigurationError(_)),
            r.is_ok() ==> {
                &&& final(self).users().len() == old(self).users().len() + 1
                &&& final(self).users().subrange(0, old(self).users().len() as int) == old(self).users()
                &&& final(self).users().last().id@ == r.unwrap()@
                &&& final(self).users().last().username == username
                &&& final(self).users().last().email == email
                &&& final(self).users().last().roles == roles
                &&& final(self).users().last().is_active
                &&& final(self).audit().last().action@ == "CREATE_USER"@
                &&& final(self).audit().last().resource@ == "user:"@ + username@
            },
            final(self).sessions() == old(self).sessions(),
            final(self).attempts() == old(self).attempts(),
    {
        let user_id = new_uuid_string();
        if self.username_taken(username.as_str()) {
            let mut msg = String::from_str("用户名 '");
            msg.append(username.as_str());
            msg.append("' 已存在");
            return Err(EnterpriseError::ConfigurationError(msg));
        }
        let resource = concat("user:", username.as_str());
        let user = User {
            id: user_id.clone(),
            username,
            email,
            roles,
            api_keys: Vec::new(),
            created_at: system_time_now(),
            last_login: None,
            is_active: true,
            metadata: HashMap::new(),
        };
        self.users.push(user);
        assert(self.users@.subrange(0, old(self).users@.len() as int) =~= old(self).users@);
        self.log_simple(None, "CREATE_USER", resource, AuditResult::Success);
        proof { reveal_strlit("CREATE_USER"); reveal_strlit("user:"); }
        Ok(user_id)
    }

    fn find_attempts(&self, username: &str) -> (r: Option<usize>)
        ensures
            r.is_none() ==> attempts_position(self.attempts(), username@).is_none(),
            r.is_some() ==> r.unwrap() < self.attempts().len() && attempts_position(
                self.attempts(),
                username@,
            ) == Some(r.unwrap() as int),
    {
        let mut i: usize = 0;
        while i < self.login_attempts.len()
            invariant
                i <= self.login_attempts@.len(),
                forall|j: int| 0 <= j < i ==> (#[trigger] self.login_attempts@[j]).username@ != username@,
            decreases self.login_attempts.len() - i,
        {
            if str_equal(self.login_attempts[i].username.as_str(), username) {
                proof {
                    let a = self.login_attempts@;
                    assert(a[i as int].username@ == username@);
                    let c = choose|c: int|
                        0 <= c < a.len() && (#[trigger] a[c]).username@ == username@ && forall|j: int|
                            0 <= j < c ==> (#[trigger] a[j]).username@ != username@;
                    assert(c == i as int) by {
                        if c < i {
                            assert(a[c].username@ != username@);
                        } else if c > i {
                            assert(a[i as int].username@ != username@);
                        }
                    }
                }
                return Some(i);
            }
            i = i + 1;
        }
        None
    }

    /// Refuses a login for `username` while its account is locked: after the
    /// policy's maximum of failed attempts, for five minutes after the last
    /// one (`now` in milliseconds). A lock that has run out is lifted.
    pub fn check_login_attempts(&mut self, username: &str, now: u64) -> (r: Result<(), EnterpriseError>)
        ensures
            r.is_err() == (attempts_position(old(self).attempts(), username@).is_some() && {
                let a = old(self).attempts()[attempts_position(old(self).attempts(), username@).unwrap()];
                a.count >= old(self).policy().max_login_attempts && now < a.last_attempt + LOCKOUT_MILLIS
            }),
            r.is_err() ==> r matches Err(EnterpriseError::AuthenticationFailed(_)),
            forall|i: int| 0 <= i < final(self).attempts().len() ==> old(self).attempts().contains(
                #[trigger] final(self).attempts()[i]),
            final(self).users() == old(self).users(),
            final(self).sessions() == old(self).sessions(),
            final(self).audit() == old(self).audit(),
            final(self).policy() == old(self).policy(),
    {
        match self.find_attempts(username) {
            None => Ok(()),
            Some(i) => {
                let count = self.login_attempts[i].count;
                let last = self.login_attempts[i].last_attempt;
                if count >= self.security_policy.max_login_attempts {
                    let elapsed = now.saturating_sub(last);
                    if elapsed < LOCKOUT_MILLIS {
                        let mut msg = String::from_str("账户被临时锁定，请在");
                        push_decimal(&mut msg, 300 - elapsed / 1000);
                        msg.append("秒后重试");
                        return Err(EnterpriseError::AuthenticationFailed(msg));
                    } else {
                        self.login_attempts.remove(i);
                    }
                }
                Ok(())
            },
        }
    }

    /// Records a failed login of `username` at `now`: one more failure, last at `now`.
    pub fn record_login_failure(&mut self, username: &str, now: u64)
        ensures
            attempts_position(old(self).attempts(), username@).is_none() ==> final(self).attempts()
                == old(self).attempts().push(final(self).attempts().last())
                && final(self).attempts().last().username@ == username@
                && final(self).attempts().last().count == 1
                && final(self).attempts().last().last_attempt == now,
            attempts_position(old(self).attempts(), username@).is_some() ==> {
                let i = attempts_position(old(self).attempts(), username@).unwrap();
                let a = old(self).attempts()[i];
                &&& final(self).attempts().len() == old(self).attempts().len()
                &&& forall|j: int| 0 <= j < old(self).attempts().len() && j != i ==> final(self).attempts()[j]
                    == old(self).attempts()[j]
                &&& final(self).attempts()[i].username == a.username
                &&& final(self).attempts()[i].count == (if a.count < usize::MAX { a.count + 1 } else { a.count as int })
                &&& final(self).attempts()[i].last_attempt == now
            },
            final(self).users() == old(self).users(),
            final(self).sessions() == old(self).sessions(),
            final(self).audit() == old(self).audit(),
            final(self).policy() == old(self).policy(),
    {
        match self.find_attempts(username) {
            None => {
                self.login_attempts.push(
                    LoginAttempts { username: String::from_str(username), count: 1, last_attempt: now },
                );
            },
            Some(i) => {
                let old_entry = self.login_attempts.remove(i);
                let count = if old_entry.count < usize::MAX {
                    old_entry.count + 1
                } else {
                    old_entry.count
                };
                self.login_attempts.insert(
                    i,
                    LoginAttempts { username: old_entry.username, count, last_attempt: now },
                );
            },
        }
    }

    /// Forgets the failed logins of `username`.
    pub fn clear_login_attempts(&mut self, username: &str)
        ensures
            attempts_position(old(self).attempts(), username@).is_none() ==> final(self).attempts()
                == old(self).attempts(),
            attempts_position(old(self).attempts(), username@).is_some() ==> final(self).attempts()
                == old(self).attempts().remove(attempts_position(old(self).attempts(), username@).unwrap()),
            final(self).users() == old(self).users(),
            final(self).sessions() == old(self).sessions(),
            final(self).audit() == old(self).audit(),
            final(self).policy() == old(self).policy(),
    {
        match self.find_attempts(username) {
            None => {},
            Some(i) => {
                self.login_attempts.remove(i);
            },
        }
    }

    fn find_user_by_name(&self, username: &str) -> (r: Option<usize>)
        ensures
            r.is_none() ==> forall|i: int| 0 <= i < self.users().len() ==> (#[trigger] self.users()[i]).username@
                != username@,
            r.is_some() ==> r.unwrap() < self.users().len() && self.users()[r.unwrap() as int].username@
                == username@ && forall|j: int| 0 <= j < r.unwrap() ==> (#[trigger] self.users()[j]).username@
                != username@,
    {
        let mut i: usize = 0;
        while i < self.users.len()
            invariant
                i <= self.users@.len(),
                forall|j: int| 0 <= j < i ==> (#[trigger] self.users@[j]).username@ != username@,
            decreases self.users.len() - i,
        {
            if str_equal(self.users[i].username.as_str(), username) {
                return Some(i);
            }
            i = i + 1;
        }
        None
    }

    /// Authenticates `username` at `now` (milliseconds): refused while the
    /// account is locked; otherwise the first user of that name, if active, is
    /// let in (its failures forgotten, the login audited) and a copy of it
    /// returned; else the failure is recorded and audited.
    pub fn authenticate_user_at(&mut self, username: &str, _password: &str, now: u64) -> (r: Result<User, EnterpriseError>)
        ensures
            r.is_ok() ==> {
                &&& exists|i: int| 0 <= i < old(self).users().len() && same_user(r.unwrap(), #[trigger] old(self).users()[i])
                    && old(self).users()[i].username@ == username@ && old(self).users()[i].is_active
                &&& final(self).audit().last().action@ == "USER_LOGIN"@
            },
            r.is_err() ==> r matches Err(EnterpriseError::AuthenticationFailed(_)),
            r.is_ok() <==> (!login_locked(old(self).attempts(), old(self).policy(), username@, now) && exists|i: int|
                0 <= i < old(self).users().len() && (#[trigger] old(self).users()[i]).username@ == username@
                    && old(self).users()[i].is_active && forall|j: int|
                    0 <= j < i ==> (#[trigger] old(self).users()[j]).username@ != username@),
            final(self).users() == old(self).users(),
            final(self).sessions() == old(self).sessions(),
            final(self).policy() == old(self).policy(),
    {
        match self.check_login_attempts(username, now) {
            Err(e) => {
                return Err(e);
            },
            Ok(()) => {},
        }
        match self.find_user_by_name(username) {
            Some(i) => {
                if self.users[i].is_active {
                    let user = self.users[i].duplicate();
                    let uid = self.users[i].id.clone();
                    self.clear_login_attempts(username);
                    self.log_simple(Some(uid), "USER_LOGIN", String::from_str("authentication"), AuditResult::Success);
                    proof { reveal_strlit("USER_LOGIN"); }
                    return Ok(user);
                }
            },
            None => {},
        }
        self.record_login_failure(username, now);
        let mut details: HashMap<String, String> = HashMap::new();
        details.insert(String::from_str("username"), String::from_str(username));
        self.log_audit_event(
            None,
            String::from_str("USER_LOGIN_FAILED"),
            String::from_str("authentication"),
            details,
            AuditResult::Failure(String::from_str("Invalid credentials")),
            None,
            None,
        );
        Err(EnterpriseError::AuthenticationFailed(String::from_str("用户名或密码错误")))
    }

    /// Authenticates `username` now; see [`Self::authenticate_user_at`].
    pub fn authenticate_user(&mut self, username: &str, password: &str) -> (r: Result<User, EnterpriseError>)
        ensures
            r.is_ok() ==> exists|i: int| 0 <= i < old(self).users().len() && same_user(r.unwrap(), #[trigger] old(self).users()[i])
                && old(self).users()[i].username@ == username@ && old(self).users()[i].is_active,
            r.is_ok() ==> final(self).audit().last().action@ == "USER_LOGIN"@,
            r.is_err() ==> r matches Err(EnterpriseError::AuthenticationFailed(_)),
            !(exists|i: int|
                0 <= i < old(self).users().len() && (#[trigger] old(self).users()[i]).username@ == username@
                    && old(self).users()[i].is_active && forall|j: int|
                    0 <= j < i ==> (#[trigger] old(self).users()[j]).username@ != username@) ==> r.is_err(),
            final(self).users() == old(self).users(),
    {
        self.authenticate_user_at(username, password, unix_millis_now())
    }

    /// Authenticates by API key at `now` (nanoseconds): the first user,
    /// in order, holding a key of that value that is valid at `now` is let in
    /// and audited; otherwise the failure is audited.
    pub fn authenticate_api_key_at(&mut self, api_key: &str, now: u128) -> (r: Result<User, EnterpriseError>)
        ensures
            r.is_ok() == exists|i: int, k: int| 0 <= i < old(self).users().len() && 0 <= k
                < old(self).users()[i].api_keys@.len() && (#[trigger] old(self).users()[i].api_keys@[k]).key@ == api_key@
                && key_valid_at(old(self).users()[i].api_keys@[k], now),
            r.is_ok() ==> exists|i: int| 0 <= i < old(self).users().len() && same_user(r.unwrap(), #[trigger] old(self).users()[i]),
            r.is_ok() ==> final(self).audit().last().action@ == "API_KEY_AUTH"@,
            r.is_err() ==> final(self).audit().last().action@ == "API_KEY_AUTH_FAILED"@
                && (r matches Err(EnterpriseError::AuthenticationFailed(_))),
            final(self).users() == old(self).users(),
            final(self).sessions() == old(self).sessions(),
            final(self).attempts() == old(self).attempts(),
    {
        let mut i: usize = 0;
        while i < self.users.len()
            invariant
                i <= self.users@.len(),
                self.users@ == old(self).users@,
                self.sessions@ == old(self).sessions@,
                self.login_attempts@ == old(self).login_attempts@,
                self.audit_log@ == old(self).audit_log@,
                self.security_policy == old(self).security_policy,
                forall|a: int, k: int| 0 <= a < i && 0 <= k < self.users@[a].api_keys@.len() ==> !(
                (#[trigger] self.users@[a].api_keys@[k]).key@ == api_key@ && key_valid_at(self.users@[a].api_keys@[k], now)),
            decreases self.users.len() - i,
        {
            let mut k: usize = 0;
            while k < self.users[i].api_keys.len()
                invariant
                    i < self.users@.len(),
                    k <= self.users@[i as int].api_keys@.len(),
                    self.users@ == old(self).users@,
                    self.sessions@ == old(self).sessions@,
                    self.login_attempts@ == old(self).login_attempts@,
                    self.audit_log@ == old(self).audit_log@,
                    self.security_policy == old(self).security_policy,
                    forall|kk: int| 0 <= kk < k ==> !((#[trigger] self.users@[i as int].api_keys@[kk]).key@ == api_key@
                        && key_valid_at(self.users@[i as int].api_keys@[kk], now)),
                decreases self.users@[i as int].api_keys@.len() - k,
            {
                if str_equal(self.users[i].api_keys[k].key.as_str(), api_key) && self.users[i].api_keys[k].is_valid_at(now) {
                    let user = self.users[i].duplicate();
                    let uid = self.users[i].id.clone();
                    self.log_simple(Some(uid), "API_KEY_AUTH", String::from_str("authentication"), AuditResult::Success);
                    proof { reveal_strlit("API_KEY_AUTH"); }
                    return Ok(user);
                }
                k = k + 1;
            }
            i = i + 1;
        }
        self.log_simple(
            None,
            "API_KEY_AUTH_FAILED",
            String::from_str("authentication"),
            AuditResult::Failure(String::from_str("Invalid API key")),
        );
        proof { reveal_strlit("API_KEY_AUTH_FAILED"); }
        Err(EnterpriseError::AuthenticationFailed(String::from_str("无效的API密钥")))
    }

    /// Authenticates by API key now; see [`Self::authenticate_api_key_at`].
    pub fn authenticate_api_key(&mut self, api_key: &str) -> (r: Result<User, EnterpriseError>)
        ensures
            r.is_ok() ==> exists|i: int| 0 <= i < old(self).users().len() && same_user(r.unwrap(), #[trigger] old(self).users()[i]),
            r.is_ok() ==> exists|i: int, k: int| 0 <= i < old(self).users().len() && 0 <= k
                < old(self).users()[i].api_keys@.len() && (#[trigger] old(self).users()[i].api_keys@[k]).key@ == api_key@
                && old(self).users()[i].api_keys@[k].is_active,
            r.is_ok() ==> final(self).audit().last().action@ == "API_KEY_AUTH"@,
            r.is_err() ==> final(self).audit().last().action@ == "API_KEY_AUTH_FAILED"@
                && (r matches Err(EnterpriseError::AuthenticationFailed(_))),
            final(self).users() == old(self).users(),
            final(self).sessions() == old(self).sessions(),
            final(self).attempts() == old(self).attempts(),
    {
        self.authenticate_api_key_at(api_key, unix_nanos_now())
    }

    /// Authenticates a session token at `now` (seconds): the first open
    /// session with that id that is valid at `now`, audited; otherwise the
    /// failure is audited.
    pub fn authenticate_jwt_at(&mut self, token_str: &str, now: u64) -> (r: Result<JwtToken, EnterpriseError>)
        ensures
            r.is_ok() == exists|i: int| 0 <= i < old(self).sessions().len()
                && (#[trigger] old(self).sessions()[i]).session_id@ == token_str@ && now < old(self).sessions()[i].expires_at,
            r.is_ok() ==> exists|i: int| 0 <= i < old(self).sessions().len() && same_token(r.unwrap(), #[trigger] old(self).sessions()[i]),
            r.is_err() ==> r matches Err(EnterpriseError::AuthenticationFailed(_)),
            final(self).users() == old(self).users(),
            final(self).sessions() == old(self).sessions(),
    {
        let mut i: usize = 0;
        while i < self.sessions.len()
            invariant
                i <= self.sessions@.len(),
                self.users@ == old(self).users@,
                self.sessions@ == old(self).sessions@,
                forall|j: int| 0 <= j < i ==> !((#[trigger] self.sessions@[j]).session_id@ == token_str@ && now
                    < self.sessions@[j].expires_at),
            decreases self.sessions.len() - i,
        {
            if str_equal(self.sessions[i].session_id.as_str(), token_str) && self.sessions[i].is_valid_at(now) {
                let token = self.sessions[i].duplicate();
                let uid = self.sessions[i].user_id.clone();
                self.log_simple(Some(uid), "JWT_AUTH", String::from_str("authentication"), AuditResult::Success);
                proof {
                    assert(same_token(token, old(self).sessions()[i as int]));
                    assert(old(self).sessions()[i as int].session_id@ == token_str@);
                }
                return Ok(token);
            }
            i = i + 1;
        }
        self.log_simple(
            None,
            "JWT_AUTH_FAILED",
            String::from_str("authentication"),
            AuditResult::Failure(String::from_str("Invalid JWT token")),
        );
        Err(EnterpriseError::AuthenticationFailed(String::from_str("无效的JWT令牌")))
    }

    /// Authenticates a session token now; see [`Self::authenticate_jwt_at`].
    pub fn authenticate_jwt(&mut self, token_str: &str) -> (r: Result<JwtToken, EnterpriseError>)
        ensures
            r.is_ok() ==> exists|i: int| 0 <= i < old(self).sessions().len() && same_token(r.unwrap(), #[trigger] old(self).sessions()[i]),
            r.is_ok() ==> exists|i: int| 0 <= i < old(self).sessions().len()
                && (#[trigger] old(self).sessions()[i]).session_id@ == token_str@ && old(self).sessions()[i].expires_at > 0,
            r.is_err() ==> r matches Err(EnterpriseError::AuthenticationFailed(_)),
            final(self).users() == old(self).users(),
            final(self).sessions() == old(self).sessions(),
    {
        self.authenticate_jwt_at(token_str, unix_secs_now())
    }

    fn find_user_by_id(&self, user_id: &str) -> (r: Option<usize>)
        ensures
            r.is_none() ==> forall|i: int| 0 <= i < self.users().len() ==> (#[trigger] self.users()[i]).id@ != user_id@,
            r.is_some() ==> r.unwrap() < self.users().len() && self.users()[r.unwrap() as int].id@ == user_id@
                && forall|j: int| 0 <= j < r.unwrap() ==> (#[trigger] self.users()[j]).id@ != user_id@,
    {
        let mut i: usize = 0;
        while i < self.users.len()
            invariant
                i <= self.users@.len(),
                forall|j: int| 0 <= j < i ==> (#[trigger] self.users@[j]).id@ != user_id@,
            decreases self.users.len() - i,
        {
            if str_equal(self.users[i].id.as_str(), user_id) {
                return Some(i);
            }
            i = i + 1;
        }
        None
    }

    /// Checks that the user `user_id` holds `permission`: an unknown user fails
    /// authentication; a user without it is refused (and the refusal audited).
    pub fn check_permission(&mut self, user_id: &str, permission: &Permission) -> (r: Result<(), EnterpriseError>)
        ensures
            (forall|i: int| 0 <= i < old(self).users().len() ==> (#[trigger] old(self).users()[i]).id@ != user_id@)
                ==> (r matches Err(EnterpriseError::AuthenticationFailed(_))) && final(self).audit() == old(self).audit(),
            forall|i: int| 0 <= i < old(self).users().len() && (#[trigger] old(self).users()[i]).id@ == user_id@
                && (forall|j: int| 0 <= j < i ==> (#[trigger] old(self).users()[j]).id@ != user_id@) ==> {
                let u = old(self).users()[i];
                &&& r.is_ok() == (u.is_active && any_role_grants(u.roles@, *permission))
                &&& r.is_err() ==> r == Err::<(), EnterpriseError>(EnterpriseError::InsufficientPermissions {
                    required: r->Err_0->required,
                    current: r->Err_0->current,
                })
                &&& r.is_err() ==> (r->Err_0->required)@ == permission_name(*permission)
                    && (r->Err_0->current)@ == role_names(u.roles@)
                    && final(self).audit().last().action@ == "PERMISSION_DENIED"@
                    && final(self).audit().last().resource@ == "permission:"@ + permission_name(*permission)
            },
            final(self).users() == old(self).users(),
            final(self).sessions() == old(self).sessions(),
    {
        match self.find_user_by_id(user_id) {
            None => Err(EnterpriseError::AuthenticationFailed(String::from_str("用户不存在"))),
            Some(i) => {
                if self.users[i].has_permission(permission) {
                    Ok(())
                } else {
                    let name = permission.name();
                    let resource = concat("permission:", name);
                    let denial = concat("权限不足: ", name);
                    let current = join_role_names(&self.users[i].roles);
                    self.log_simple(
                        Some(String::from_str(user_id)),
                        "PERMISSION_DENIED",
                        resource,
                        AuditResult::Denied(denial),
                    );
                    proof { reveal_strlit("PERMISSION_DENIED"); reveal_strlit("permission:"); }
                    Err(EnterpriseError::InsufficientPermissions { required: String::from_str(name), current })
                }
            },
        }
    }

    /// The audit log, newest first, at most `limit` entries when a limit is given.
    pub fn get_audit_logs(&self, limit: Option<usize>) -> (r: Vec<AuditLogEntry>)
        ensures
            r@.len() == (match limit {
                Some(l) => if l < self.audit().len() { l as int } else { self.audit().len() as int },
                None => self.audit().len() as int,
            }),
            forall|k: int| 0 <= k < r@.len() ==> same_audit_entry(#[trigger] r@[k], self.audit()[self.audit().len() - 1 - k]),
    {
        let n = self.audit_log.len();
        let count = match limit {
            Some(l) => if l < n { l } else { n },
            None => n,
        };
        let mut r: Vec<AuditLogEntry> = Vec::new();
        let mut k: usize = 0;
        while k < count
            invariant
                count <= n,
                n == self.audit_log@.len(),
                k <= count,
                r@.len() == k,
                forall|j: int| 0 <= j < k ==> same_audit_entry(#[trigger] r@[j], self.audit_log@[n - 1 - j]),
            decreases count - k,
        {
            r.push(self.audit_log[n - 1 - k].duplicate());
            k = k + 1;
        }
        r
    }

    /// Closes the sessions that are no longer valid at `now` (seconds).
    pub fn cleanup_expired_sessions_at(&mut self, now: u64)
        ensures
            final(self).sessions() == old(self).sessions().filter(|t: JwtToken| now < t.expires_at),
            final(self).users() == old(self).users(),
            final(self).audit() == old(self).audit(),
    {
        let mut kept: Vec<JwtToken> = Vec::new();
        let mut rest = Vec::new();
        std::mem::swap(&mut rest, &mut self.sessions);
        let ghost all = rest@;
        while rest.len() > 0
            invariant
                rest@.len() <= all.len(),
                rest@ == all.subrange(all.len() - rest@.len(), all.len() as int),
                kept@ == all.subrange(0, all.len() - rest@.len()).filter(|t: JwtToken| now < t.expires_at),
            decreases rest.len(),
        {
            let ghost before = rest@.len();
            let t = rest.remove(0);
            proof {
                let m = all.len() - before;
                assert(t == all[m]);
                assert(all.subrange(0, m + 1) =~= all.subrange(0, m).push(t));
                all.subrange(0, m).lemma_filter_push(t, |t: JwtToken| now < t.expires_at);
                assert(rest@ =~= all.subrange(all.len() - rest@.len(), all.len() as int));
            }
            if now < t.expires_at {
                kept.push(t);
            }
        }
        assert(all.subrange(0, all.len() as int) =~= all);
        self.sessions = kept;
    }

    /// Closes the sessions that are no longer valid now.
    pub fn cleanup_expired_sessions(&mut self)
        ensures
            exists|now: u64| final(self).sessions() == #[trigger] sessions_valid_at(old(self).sessions(), now),
            forall|i: int| 0 <= i < final(self).sessions().len() ==> old(self).sessions().contains(
                #[trigger] final(self).sessions()[i]),
            final(self).users() == old(self).users(),
            final(self).audit() == old(self).audit(),
    {
        let now = unix_secs_now();
        self.cleanup_expired_sessions_at(now);
        proof {
            assert(self.sessions() == sessions_valid_at(old(self).sessions(), now));
            assert forall|i: int| 0 <= i < self.sessions@.len() implies old(self).sessions@.contains(
                #[trigger] self.sessions@[i]) by {
                old(self).sessions@.lemma_filter_contains_rev(
                    |t: JwtToken| now < t.expires_at,
                    self.sessions@[i],
                );
            }
        }
    }

    /// A copy of the user with id `user_id`, if there is one.
    pub fn get_user(&self, user_id: &str) -> (r: Option<User>)
        ensures
            r.is_some() == exists|i: int| 0 <= i < self.users().len() && (#[trigger] self.users()[i]).id@ == user_id@,
            r.is_some() ==> exists|i: int| 0 <= i < self.users().len() && (#[trigger] self.users()[i]).id@ == user_id@
                && same_user(r.unwrap(), self.users()[i]),
    {
        match self.find_user_by_id(user_id) {
            None => None,
            Some(i) => Some(self.users[i].duplicate()),
        }
    }

    /// Copies of all users, in order of creation.
    pub fn list_users(&self) -> (r: Vec<User>)
        ensures
            r@.len() == self.users().len(),
            forall|i: int| 0 <= i < r@.len() ==> same_user(#[trigger] r@[i], self.users()[i]),
    {
        let mut r: Vec<User> = Vec::new();
        let mut i: usize = 0;
        while i < self.users.len()
            invariant
                i <= self.users@.len(),
                r@.len() == i,
                forall|j: int| 0 <= j < i ==> same_user(#[trigger] r@[j], self.users@[j]),
            decreases self.users.len() - i,
        {
            r.push(self.users[i].duplicate());
            i = i + 1;
        }
        r
    }

    /// Replaces the security policy.
    pub fn update_security_policy(&mut self, policy: SecurityPolicy)
        ensures
            final(self).policy() == policy,
            final(self).users() == old(self).users(),
            final(self).sessions() == old(self).sessions(),
            final(self).audit() == old(self).audit(),
            final(self).attempts() == old(self).attempts(),
    {
        self.security_policy = policy;
    }

    /// A copy of the security policy.
    pub fn get_security_policy(&self) -> (p: SecurityPolicy)
        ensures
            p.max_login_attempts == self.policy().max_login_attempts,
            p.min_password_length == self.policy().min_password_length,
            p.require_strong_password == self.policy().require_strong_password,
            p.enable_ip_whitelist == self.policy().enable_ip_whitelist,
            p.require_2fa == self.policy().require_2fa,
    {
        self.security_policy.duplicate()
    }
}


/// Settings of the enterprise features.
#[derive(Debug)]
pub struct EnterpriseConfig {
    pub auth: AuthConfig,
    pub tls: TlsConfig,
    pub monitoring: MonitoringConfig,
    pub audit: AuditConfig,
    pub performance: PerformanceConfig,
    pub security_policy: SecurityPolicy,
}

/// Authentication settings.
#[derive(Debug)]
pub struct AuthConfig {
    pub enabled: bool,
    pub jwt_secret: Option<String>,
    pub token_expiry: Duration,
    pub enable_api_keys: bool,
}

/// TLS settings.
#[derive(Debug)]
pub struct TlsConfig {
    pub enabled: bool,
    pub cert_file: Option<String>,
    pub key_file: Option<String>,
    pub ca_file: Option<String>,
    pub verify_client: bool,
}

/// Monitoring settings.
#[derive(Debug)]
pub struct MonitoringConfig {
    pub enable_prometheus: bool,
    pub prometheus_port: u16,
    pub enable_health_check: bool,
    pub health_check_port: u16,
    pub metrics_interval: Duration,
}

/// Audit log settings.
#[derive(Debug)]
pub struct AuditConfig {
    pub enabled: bool,
    pub log_file: Option<String>,
    pub max_log_size_mb: usize,
    pub retention_days: usize,
    pub log_all_operations: bool,
}

/// Performance settings.
#[derive(Debug)]
pub struct PerformanceConfig {
    pub enable_simd: bool,
    pub memory_pool_size_mb: usize,
    pub enable_zero_copy: bool,
    pub thread_pool_size: Option<usize>,
    pub enable_cache_warmup: bool,
}

impl Default for EnterpriseConfig {
    /// Authentication on with API keys and hour-long tokens; no TLS;
    /// Prometheus on port 9090 and health checks on port 8080 every 30 seconds;
    /// an audit log of at most 100 MB kept 90 days in
    /// "grape_vector_db_audit.log"; SIMD, zero copy and cache warm-up on with a
    /// 1024 MB memory pool; the default security policy.
    fn default() -> (c: Self)
        ensures
            c.auth.enabled,
            c.auth.jwt_secret.is_none(),
            secs_of(c.auth.token_expiry) == 3600,
            millis_of(c.auth.token_expiry) == 3600 * 1000,
            nanos_of(c.auth.token_expiry) == 3600 * 1_000_000_000,
            c.auth.enable_api_keys,
            !c.tls.enabled,
            c.tls.cert_file.is_none(),
            c.tls.key_file.is_none(),
            c.tls.ca_file.is_none(),
            !c.tls.verify_client,
            c.monitoring.enable_prometheus,
            c.monitoring.prometheus_port == 9090,
            c.monitoring.enable_health_check,
            c.monitoring.health_check_port == 8080,
            secs_of(c.monitoring.metrics_interval) == 30,
            millis_of(c.monitoring.metrics_interval) == 30 * 1000,
            nanos_of(c.monitoring.metrics_interval) == 30 * 1_000_000_000,
            c.audit.enabled,
            c.audit.log_file.is_some() && c.audit.log_file.unwrap()@ == "grape_vector_db_audit.log"@,
            c.audit.max_log_size_mb == 100,
            c.audit.retention_days == 90,
            !c.audit.log_all_operations,
            c.performance.enable_simd,
            c.performance.memory_pool_size_mb == 1024,
            c.performance.enable_zero_copy,
            c.performance.thread_pool_size.is_none(),
            c.performance.enable_cache_warmup,
            c.security_policy.min_password_length == 8,
            c.security_policy.require_strong_password,
            c.security_policy.max_login_attempts == 5,
            secs_of(c.security_policy.account_lockout_duration) == 300,
            millis_of(c.security_policy.account_lockout_duration) == 300 * 1000,
            nanos_of(c.security_policy.account_lockout_duration) == 300 * 1_000_000_000,
            secs_of(c.security_policy.jwt_expiry) == 3600,
            millis_of(c.security_policy.jwt_expiry) == 3600 * 1000,
            nanos_of(c.security_policy.jwt_expiry) == 3600 * 1_000_000_000,
            c.security_policy.api_key_default_expiry matches Some(d) && secs_of(d) == 86400 * 30 && millis_of(d) == 86400 * 30
                * 1000 && nanos_of(d) == 86400 * 30 * 1_000_000_000,
            secs_of(c.security_policy.session_timeout) == 3600 * 8,
            millis_of(c.security_policy.session_timeout) == 3600 * 8 * 1000,
            nanos_of(c.security_policy.session_timeout) == 3600 * 8 * 1_000_000_000,
            !c.security_policy.enable_ip_whitelist,
            c.security_policy.ip_whitelist@.len() == 0,
            !c.security_policy.require_2fa,
    {
        EnterpriseConfig {
            auth: AuthConfig {
                enabled: true,
                jwt_secret: None,
                token_expiry: duration_from_secs(3600),
                enable_api_keys: true,
            },
            tls: TlsConfig { enabled: false, cert_file: None, key_file: None, ca_file: None, verify_client: false },
            monitoring: MonitoringConfig {
                enable_prometheus: true,
                prometheus_port: 9090,
                enable_health_check: true,
                health_check_port: 8080,
                metrics_interval: duration_from_secs(30),
            },
            audit: AuditConfig {
                enabled: true,
                log_file: Some(String::from_str("grape_vector_db_audit.log")),
                max_log_size_mb: 100,
                retention_days: 90,
                log_all_operations: false,
            },
            performance: PerformanceConfig {
                enable_simd: true,
                memory_pool_size_mb: 1024,
                enable_zero_copy: true,
                thread_pool_size: None,
                enable_cache_warmup: true,
            },
            security_policy: SecurityPolicy::default(),
        }
    }
}


/// How the roles relate: a read-only user reads data and a system monitor
/// views metrics, and that is all each does; a data manager does what both
/// do and writes data; a database administrator does what a data manager does
/// and manages databases and indexes; a super administrator does everything.
/// Only a super administrator manages users or the system's configuration, and
/// a custom role carries no permission by itself.
pub proof fn lemma_role_hierarchy(p: Permission, r: Role)
    ensures
        role_grants(Role::ReadOnlyUser, p) <==> p == Permission::ReadData,
        role_grants(Role::SystemMonitor, p) <==> p == Permission::ViewMetrics,
        role_grants(Role::DataManager, p) <==> (role_grants(Role::ReadOnlyUser, p) || role_grants(
            Role::SystemMonitor,
            p,
        ) || p == Permission::WriteData),
        role_grants(Role::DatabaseAdmin, p) <==> (role_grants(Role::DataManager, p) || p == Permission::ManageDatabase
            || p == Permission::ManageIndexes),
        role_grants(Role::SuperAdmin, p),
        role_grants(r, p) ==> role_grants(Role::SuperAdmin, p),
        (p == Permission::ManageUsers || p == Permission::SystemConfig) && role_grants(r, p) ==> r == Role::SuperAdmin,
        r is Custom ==> !role_grants(r, p),
{
}

} // verus!

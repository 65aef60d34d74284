//! The accounts of the web panel: what `users.json` holds.
use vstd::prelude::*;
use crate::casino::user_key;
use crate::text::{
    ascii_lower, chars_of, eq_ci, eq_ignore_case, is_ascii_text, lit, lower_of, str_eq, string_of, to_lower, trim, trim_seq,
};
use crate::public::{allowed_public_collection, collection_names};

verus! {

/// What an account may do.
#[derive(Clone, Copy, Debug, PartialEq, Eq, Structural)]
pub enum UserRole {
    Owner,
    User,
}

/// An account of the web panel.
pub struct AppUser {
    pub username: String,
    pub password: String,
    pub role: UserRole,
    pub minecraft_name: String,
    pub discord_name: String,
    pub permissions: Vec<String>,
}

/// An account without its password.
pub struct PublicUser {
    pub username: String,
    pub role: UserRole,
    pub minecraft_name: String,
    pub discord_name: String,
    pub permissions: Vec<String>,
}

/// A request to create an account.
pub struct NewUserRequest {
    pub username: String,
    pub password: String,
    pub role: UserRole,
    pub minecraft_name: Option<String>,
    pub discord_name: Option<String>,
    pub permissions: Vec<String>,
}

/// A request to change an account; absent fields stay as they are.
pub struct UpdateUserRequest {
    pub password: Option<String>,
    pub role: Option<UserRole>,
    pub minecraft_name: Option<String>,
    pub discord_name: Option<String>,
    pub permissions: Option<Vec<String>>,
}

/// A login attempt.
pub struct LoginRequest {
    pub username: String,
    pub password: String,
}

/// What a successful login answers.
pub struct LoginResponse {
    pub username: String,
    pub role: UserRole,
    pub minecraft_name: String,
    pub discord_name: String,
    pub permissions: Vec<String>,
}

/// Why an account change was refused.
pub enum UserError {
    MissingCredentials,
    AlreadyExists,
    PrimaryOwner,
}

/// The message of each refusal.
pub open spec fn user_error_text(e: UserError) -> Seq<char> {
    match e {
        UserError::MissingCredentials => "username and password are required"@,
        UserError::AlreadyExists => "user already exists"@,
        UserError::PrimaryOwner => "the primary admin owner account cannot be deleted"@,
    }
}

impl UserError {
    /// The message shown for this refusal.
    pub fn message(&self) -> (s: String)
        ensures
            s@ == user_error_text(*self),
    {
        match self {
            UserError::MissingCredentials => lit("username and password are required"),
            UserError::AlreadyExists => lit("user already exists"),
            UserError::PrimaryOwner => lit("the primary admin owner account cannot be deleted"),
        }
    }
}

/// A copy of a list of strings.
pub fn copy_strings(v: &Vec<String>) -> (r: Vec<String>)
    ensures
        r@ == v@,
{
    let r = v.clone();
    assert(r@ =~= v@);
    r
}

impl AppUser {
    /// A copy of this account.
    pub fn duplicate(&self) -> (r: AppUser)
        ensures
            same_account(r, *self),
    {
        let p = copy_strings(&self.permissions);
        AppUser {
            username: self.username.clone(),
            password: self.password.clone(),
            role: self.role,
            minecraft_name: self.minecraft_name.clone(),
            discord_name: self.discord_name.clone(),
            permissions: p,
        }
    }

    /// This account without its password.
    pub fn public(&self) -> (r: PublicUser)
        ensures
            shows_user(r, *self),
    {
        PublicUser {
            username: self.username.clone(),
            role: self.role,
            minecraft_name: self.minecraft_name.clone(),
            discord_name: self.discord_name.clone(),
            permissions: copy_strings(&self.permissions),
        }
    }

    /// What a login answers for this account.
    pub fn login_response(&self) -> (r: LoginResponse)
        ensures
            r.username@ == self.username@,
            r.role == self.role,
            r.minecraft_name@ == self.minecraft_name@,
            r.discord_name@ == self.discord_name@,
            r.permissions@ == self.permissions@,
    {
        LoginResponse {
            username: self.username.clone(),
            role: self.role,
            minecraft_name: self.minecraft_name.clone(),
            discord_name: self.discord_name.clone(),
            permissions: copy_strings(&self.permissions),
        }
    }
}

/// `a` and `b` hold the same account.
pub open spec fn same_account(a: AppUser, b: AppUser) -> bool {
    &&& a.username == b.username
    &&& a.password == b.password
    &&& a.role == b.role
    &&& a.minecraft_name == b.minecraft_name
    &&& a.discord_name == b.discord_name
    &&& a.permissions@ == b.permissions@
}

/// `p` shows account `u` without its password.
pub open spec fn shows_user(p: PublicUser, u: AppUser) -> bool {
    &&& p.username@ == u.username@
    &&& p.role == u.role
    &&& p.minecraft_name@ == u.minecraft_name@
    &&& p.discord_name@ == u.discord_name@
    &&& p.permissions@ == u.permissions@
}

/// The accounts used when `users.json` cannot be read: one owner, `admin`.
pub fn default_users() -> (r: Vec<AppUser>)
    ensures
        r@.len() == 1,
        r@[0].username@ == "admin"@,
        r@[0].password@ == "change-me"@,
        r@[0].role == UserRole::Owner,
        r@[0].minecraft_name@ == "admin"@,
        r@[0].discord_name@ == Seq::<char>::empty(),
        r@[0].permissions.deep_view() == seq!["bank"@, "bounty"@, "book_writer"@, "shop"@, "faq_whisper"@],
{
    let mut permissions: Vec<String> = Vec::new();
    permissions.push(lit("bank"));
    permissions.push(lit("bounty"));
    permissions.push(lit("book_writer"));
    permissions.push(lit("shop"));
    permissions.push(lit("faq_whisper"));
    assert(permissions.deep_view() =~= seq!["bank"@, "bounty"@, "book_writer"@, "shop"@, "faq_whisper"@]);
    let mut r: Vec<AppUser> = Vec::new();
    r.push(
        AppUser {
            username: lit("admin"),
            password: lit("change-me"),
            role: UserRole::Owner,
            minecraft_name: lit("admin"),
            discord_name: String::new(),
            permissions,
        },
    );
    r
}

// ---------------------------------------------------------------------------
// Permissions
// ---------------------------------------------------------------------------
/// The permissions that an account can hold: the page permissions, the FAQ
/// editor's, the server records' readers' and admins', and the write
/// permission of one server record collection ("<collection>:write").
pub open spec fn is_known_permission(k: Seq<char>) -> bool {
    ||| k == "bank"@ || k == "bounty"@ || k == "book_writer"@ || k == "shop"@
    ||| k == "faq_whisper"@ || k == "public"@ || k == "archive"@ || k == "public_admin"@
    ||| is_collection_write(k)
}

/// `k` is "<collection>:write" for a server record collection.
pub open spec fn is_collection_write(k: Seq<char>) -> bool {
    k.len() > 6 && k.subrange(k.len() - 6, k.len() as int) == ":write"@ && collection_names().contains(
        k.subrange(0, k.len() - 6),
    )
}

/// Decides `is_known_permission`.
fn known_permission(key: &str) -> (r: bool)
    ensures
        r == is_known_permission(key@),
{
    if str_eq(key, "bank") || str_eq(key, "bounty") || str_eq(key, "book_writer") || str_eq(key, "shop")
        || str_eq(key, "faq_whisper") || str_eq(key, "public") || str_eq(key, "archive") || str_eq(key, "public_admin") {
        return true;
    }
    let kv = chars_of(key);
    let n = kv.len();
    if n <= 6 {
        return false;
    }
    let tail = string_of(&kv, n - 6, n);
    let head = string_of(&kv, 0, n - 6);
    str_eq(tail.as_str(), ":write") && allowed_public_collection(head.as_str())
}

/// One step of `normalized_permissions`.
pub open spec fn permission_step(out: Seq<Seq<char>>, p: Seq<char>) -> Seq<Seq<char>> {
    let key = user_key(p);
    if is_known_permission(key) && !out.contains(key) {
        out.push(key)
    } else {
        out
    }
}

/// The permissions kept from a list: trimmed, lowercased, known ones only,
/// first occurrence only, in order.
pub open spec fn normalized_permissions(s: Seq<Seq<char>>) -> Seq<Seq<char>>
    decreases s.len(),
{
    if s.len() == 0 {
        Seq::empty()
    } else {
        permission_step(normalized_permissions(s.drop_last()), s.last())
    }
}

fn contains_string(v: &Vec<String>, k: &String) -> (r: bool)
    ensures
        r == v.deep_view().contains(k@),
{
    let mut i: usize = 0;
    while i < v.len()
        invariant
            i <= v.len(),
            forall|j: int| 0 <= j < i ==> v.deep_view()[j] != k@,
        decreases v.len() - i,
    {
        if v[i] == *k {
            assert(v.deep_view()[i as int] == k@);
            return true;
        }
        i += 1;
    }
    false
}

/// Keeps the known permissions of a list (`is_known_permission`), trimmed
/// and lowercased, once each.
pub fn normalize_permissions(permissions: Vec<String>) -> (r: Vec<String>)
    ensures
        r.deep_view() == normalized_permissions(permissions.deep_view()),
{
    let mut out: Vec<String> = Vec::new();
    let mut i: usize = 0;
    while i < permissions.len()
        invariant
            i <= permissions.len(),
            out.deep_view() == normalized_permissions(permissions.deep_view().take(i as int)),
        decreases permissions.len() - i,
    {
        let t = trim(permissions[i].as_str());
        let key = to_lower(t.as_str());
        let known = known_permission(key.as_str());
        proof {
            let s = permissions.deep_view().take(i + 1);
            assert(s.drop_last() == permissions.deep_view().take(i as int));
            assert(s.last() == permissions@[i as int]@);
        }
        if known && !contains_string(&out, &key) {
            let ghost before = out.deep_view();
            out.push(key);
            assert(out.deep_view() =~= before.push(key@));
        }
        i += 1;
    }
    assert(permissions.deep_view().take(permissions.len() as int) == permissions.deep_view());
    out
}

// ---------------------------------------------------------------------------
// Lookups
// ---------------------------------------------------------------------------
/// Index of the first account at or after `i` whose username equals `name` up
/// to ASCII case.
pub open spec fn first_user_from(users: Seq<AppUser>, name: Seq<char>, i: int) -> Option<int>
    decreases users.len() - i,
{
    if i < 0 || i >= users.len() {
        None
    } else if eq_ci(users[i].username@, name) {
        Some(i)
    } else {
        first_user_from(users, name, i + 1)
    }
}

/// Index of the first account named `name` (up to ASCII case).
pub open spec fn first_user(users: Seq<AppUser>, name: Seq<char>) -> Option<int> {
    first_user_from(users, name, 0)
}

pub proof fn lemma_first_user_from(users: Seq<AppUser>, name: Seq<char>, i: int)
    requires
        0 <= i <= users.len(),
    ensures
        first_user_from(users, name, i) matches Some(j) ==> i <= j < users.len() && eq_ci(users[j].username@, name)
            && forall|k: int| i <= k < j ==> !eq_ci(#[trigger] users[k].username@, name),
        first_user_from(users, name, i) is None ==> forall|k: int| i <= k < users.len() ==> !eq_ci(#[trigger] users[k].username@, name),
    decreases users.len() - i,
{
    if i < users.len() && !eq_ci(users[i].username@, name) {
        lemma_first_user_from(users, name, i + 1);
    }
}

fn index_of_user(users: &Vec<AppUser>, name: &str) -> (r: Option<usize>)
    ensures
        r matches Some(i) ==> first_user(users@, name@) == Some(i as int) && i < users.len(),
        r is None ==> first_user(users@, name@) is None,
{
    let mut i: usize = 0;
    while i < users.len()
        invariant
            i <= users.len(),
            first_user(users@, name@) == first_user_from(users@, name@, i as int),
        decreases users.len() - i,
    {
        if eq_ignore_case(users[i].username.as_str(), name) {
            return Some(i);
        }
        i += 1;
    }
    None
}

/// The first account named `username` once trimmed (up to ASCII case).
pub fn find_user(users: &Vec<AppUser>, username: &str) -> (r: Option<AppUser>)
    ensures
        match first_user(users@, trim_seq(username@)) {
            Some(i) => r matches Some(u) && same_account(u, users@[i]),
            None => r is None,
        },
{
    let name = trim(username);
    match index_of_user(users, name.as_str()) {
        Some(i) => Some(users[i].duplicate()),
        None => None,
    }
}

/// The account named `username` when `password` is its password.
pub fn verify_user(users: &Vec<AppUser>, username: &str, password: &str) -> (r: Option<AppUser>)
    ensures
        match first_user(users@, trim_seq(username@)) {
            Some(i) => if users@[i].password@ == password@ {
                r matches Some(u) && same_account(u, users@[i])
            } else {
                r is None
            },
            None => r is None,
        },
{
    match find_user(users, username) {
        Some(u) => if str_eq(u.password.as_str(), password) { Some(u) } else { None },
        None => None,
    }
}

/// Every account without its password.
pub fn public_users(users: &Vec<AppUser>) -> (r: Vec<PublicUser>)
    ensures
        r@.len() == users@.len(),
        forall|i: int| 0 <= i < r@.len() ==> shows_user(#[trigger] r@[i], users@[i]),
{
    let mut r: Vec<PublicUser> = Vec::new();
    let mut i: usize = 0;
    while i < users.len()
        invariant
            i <= users.len(),
            r@.len() == i,
            forall|j: int| 0 <= j < i ==> shows_user(#[trigger] r@[j], users@[j]),
        decreases users.len() - i,
    {
        r.push(users[i].public());
        i += 1;
    }
    r
}

// ---------------------------------------------------------------------------
// Changes
// ---------------------------------------------------------------------------
/// The account that `add_user` creates from a request.
pub open spec fn new_account(u: AppUser, input: NewUserRequest) -> bool {
    &&& u.username@ == user_key(input.username@)
    &&& is_ascii_text(trim_seq(input.username@)) ==> u.username@ == trim_seq(input.username@).map_values(
        |c: char| ascii_lower(c),
    )
    &&& u.password@ == input.password@
    &&& u.role == input.role
    &&& u.minecraft_name@ == (match input.minecraft_name {
        Some(m) => m@,
        None => Seq::<char>::empty(),
    })
    &&& u.discord_name@ == (match input.discord_name {
        Some(d) => d@,
        None => Seq::<char>::empty(),
    })
    &&& u.permissions.deep_view() == normalized_permissions(input.permissions.deep_view())
}

/// Adds an account. Refused when the cleaned username or the password is
/// empty, or when an account of that name (up to ASCII case) exists.
pub fn add_user(users: &mut Vec<AppUser>, input: NewUserRequest) -> (r: Result<PublicUser, UserError>)
    ensures
        ({
            let key = user_key(input.username@);
            if key.len() == 0 || input.password@.len() == 0 {
                r matches Err(UserError::MissingCredentials) && final(users)@ == old(users)@
            } else if first_user(old(users)@, key) is Some {
                r matches Err(UserError::AlreadyExists) && final(users)@ == old(users)@
            } else {
                &&& final(users)@.len() == old(users)@.len() + 1
                &&& final(users)@.drop_last() == old(users)@
                &&& new_account(final(users)@.last(), input)
                &&& r matches Ok(p) && shows_user(p, final(users)@.last())
            }
        }),
{
    let t = trim(input.username.as_str());
    let username = to_lower(t.as_str());
    if username.as_str().is_empty() || input.password.as_str().is_empty() {
        return Err(UserError::MissingCredentials);
    }
    if index_of_user(users, username.as_str()).is_some() {
        return Err(UserError::AlreadyExists);
    }
    let ghost req = input;
    let minecraft_name = match input.minecraft_name {
        Some(m) => m,
        None => String::new(),
    };
    let discord_name = match input.discord_name {
        Some(d) => d,
        None => String::new(),
    };
    let user = AppUser {
        username,
        password: input.password,
        role: input.role,
        minecraft_name,
        discord_name,
        permissions: normalize_permissions(input.permissions),
    };
    let public = user.public();
    let ghost before = users@;
    users.push(user);
    assert(users@.drop_last() == before);
    Ok(public)
}

/// The account `u` becomes under `input`; the role of `admin` never changes.
pub open spec fn updated_account(u: AppUser, n: AppUser, input: UpdateUserRequest, key: Seq<char>) -> bool {
    &&& n.username == u.username
    &&& n.role == (match input.role {
        Some(role) => if !eq_ci(key, "admin"@) { role } else { u.role },
        None => u.role,
    })
    &&& n.password@ == (match input.password {
        Some(p) => if p@.len() > 0 { p@ } else { u.password@ },
        None => u.password@,
    })
    &&& n.minecraft_name@ == (match input.minecraft_name {
        Some(m) => m@,
        None => u.minecraft_name@,
    })
    &&& n.discord_name@ == (match input.discord_name {
        Some(d) => d@,
        None => u.discord_name@,
    })
    &&& n.permissions.deep_view() == (match input.permissions {
        Some(ps) => normalized_permissions(ps.deep_view()),
        None => u.permissions.deep_view(),
    })
}

/// Changes the first account named `username` (trimmed, lowercased, then
/// matched up to ASCII case); `None` when there is none.
pub fn update_user(users: &mut Vec<AppUser>, username: &str, input: UpdateUserRequest) -> (r: Option<PublicUser>)
    ensures
        ({
            let key = user_key(username@);
            match first_user(old(users)@, key) {
                None => r is None && final(users)@ == old(users)@,
                Some(i) => {
                    &&& final(users)@.len() == old(users)@.len()
                    &&& forall|j: int| 0 <= j < old(users)@.len() && j != i ==> final(users)@[j] == old(users)@[j]
                    &&& updated_account(old(users)@[i], final(users)@[i], input, key)
                    &&& r matches Some(p) && shows_user(p, final(users)@[i])
                },
            }
        }),
{
    let t = trim(username);
    let key = to_lower(t.as_str());
    let i = match index_of_user(users, key.as_str()) {
        Some(i) => i,
        None => return None,
    };
    let mut user = users[i].duplicate();
    let ghost u0 = user;
    let is_admin = eq_ignore_case(key.as_str(), "admin");
    if !is_admin {
        if let Some(role) = input.role {
            user.role = role;
        }
    }
    if let Some(password) = input.password {
        if !password.as_str().is_empty() {
            user.password = password;
        }
    }
    if let Some(minecraft_name) = input.minecraft_name {
        user.minecraft_name = minecraft_name;
    }
    if let Some(discord_name) = input.discord_name {
        user.discord_name = discord_name;
    }
    if let Some(permissions) = input.permissions {
        user.permissions = normalize_permissions(permissions);
    }
    let public = user.public();
    users.set(i, user);
    Some(public)
}

/// The accounts that are not named `key` (up to ASCII case).
pub open spec fn without_user(users: Seq<AppUser>, key: Seq<char>) -> Seq<AppUser> {
    users.filter(|u: AppUser| !eq_ci(u.username@, key))
}

/// Removes every account named `username` (trimmed, lowercased, then matched
/// up to ASCII case) and says whether one was removed; `admin` cannot go.
pub fn delete_user(users: &mut Vec<AppUser>, username: &str) -> (r: Result<bool, UserError>)
    ensures
        ({
            let key = user_key(username@);
            if eq_ci(key, "admin"@) {
                r matches Err(UserError::PrimaryOwner) && final(users)@ == old(users)@
            } else {
                final(users)@ == without_user(old(users)@, key) && r == Ok::<bool, UserError>(
                    final(users)@.len() != old(users)@.len(),
                )
            }
        }),
{
    let t = trim(username);
    let key = to_lower(t.as_str());
    if eq_ignore_case(key.as_str(), "admin") {
        return Err(UserError::PrimaryOwner);
    }
    let ghost pred = |u: AppUser| !eq_ci(u.username@, key@);
    let ghost orig = users@;
    let old_len = users.len();
    let mut rest: Vec<AppUser> = Vec::new();
    std::mem::swap(&mut rest, users);
    let mut kept: Vec<AppUser> = Vec::new();
    let mut i: usize = 0;
    assert(orig.skip(0) == orig);
    while i < old_len
        invariant
            i <= old_len,
            old_len == orig.len(),
            rest@ == orig.skip(i as int),
            pred == (|u: AppUser| !eq_ci(u.username@, key@)),
            kept@ == orig.take(i as int).filter(pred),
        decreases old_len - i,
    {
        proof {
            assert(orig.take(i + 1) == orig.take(i as int).push(orig[i as int]));
            orig.take(i as int).lemma_filter_push(orig[i as int], pred);
        }
        let u = rest.remove(0);
        assert(rest@ =~= orig.skip(i + 1));
        if !eq_ignore_case(u.username.as_str(), key.as_str()) {
            kept.push(u);
        }
        i += 1;
    }
    assert(orig.take(orig.len() as int) == orig);
    *users = kept;
    Ok(old_len != users.len())
}

} // verus!

//! The in-memory store of users, assets and purchases, and the operations
//! of the wallet on it.
use vstd::prelude::*;

use vstd::string::StringExecFns;
use vstd::utf8::encode_utf8;

use crate::errors::{AppError, ErrorModel};
use crate::models::{AssetRecord, AssetView, PurchaseRecord, PurchaseView, UserRecord};
use crate::passwords::{generate_hash, password_matches, verify_password};
use crate::text::{
    ascii_lower_code, ascii_lowercase, eq_ignore_ascii_case, eq_ignore_ascii_case_spec, is_ascii_text, is_unicode_whitespace,
    lemma_utf8_len_bound, lowercase_of, to_lowercase, utf8_len_is_encoded_length, trim, trim_end_spec, trim_spec, trim_start_spec, utf8_len,
    utf8_len_below,
};
use crate::utils::{
    change_cents, format_money, format_quantity, format_signed_money, money_text, quantity_text,
    signed_money_text, trunc_div,
};

verus! {

/// Users, assets and purchases, with the counters that number them.
#[derive(Debug)]
pub struct MemoryStore {
    next_user_id: i64,
    next_asset_id: i64,
    next_purchase_id: i64,
    users: Vec<UserRecord>,
    assets: Vec<AssetRecord>,
    purchases: Vec<PurchaseRecord>,
}

/// The contents of a store.
pub struct StoreModel {
    pub next_user_id: int,
    pub next_asset_id: int,
    pub next_purchase_id: int,
    pub users: Seq<UserRecord>,
    pub assets: Seq<AssetRecord>,
    pub purchases: Seq<PurchaseRecord>,
}

impl View for MemoryStore {
    type V = StoreModel;

    closed spec fn view(&self) -> StoreModel {
        StoreModel {
            next_user_id: self.next_user_id as int,
            next_asset_id: self.next_asset_id as int,
            next_purchase_id: self.next_purchase_id as int,
            users: self.users@,
            assets: self.assets@,
            purchases: self.purchases@,
        }
    }
}

impl StoreModel {
    /// What every store keeps: records are numbered from 1 in the order they
    /// were added and never above their counter, usernames are distinct,
    /// values and quantities are positive, and every purchase is of an
    /// existing asset.
    pub open spec fn wf(self) -> bool {
        &&& 0 <= self.next_user_id <= i64::MAX
        &&& 0 <= self.next_asset_id <= i64::MAX
        &&& 0 <= self.next_purchase_id <= i64::MAX
        &&& forall|i: int|
            0 <= i < self.users.len() ==> 0 < #[trigger] self.users[i].id <= self.next_user_id
        &&& forall|i: int, j: int|
            0 <= i < j < self.users.len() ==> #[trigger] self.users[i].id < #[trigger] self.users[j].id
        &&& forall|i: int, j: int|
            0 <= i < j < self.users.len() ==> #[trigger] self.users[i].username@
                != #[trigger] self.users[j].username@
        &&& forall|i: int|
            0 <= i < self.assets.len() ==> 0 < #[trigger] self.assets[i].id <= self.next_asset_id
                && self.assets[i].unit_value_cents > 0
        &&& forall|i: int, j: int|
            0 <= i < j < self.assets.len() ==> #[trigger] self.assets[i].id
                < #[trigger] self.assets[j].id
        &&& forall|i: int|
            0 <= i < self.purchases.len() ==> 0 < #[trigger] self.purchases[i].id
                <= self.next_purchase_id && self.purchases[i].quantity_milli > 0
                && self.purchases[i].bought_for_cents > 0
        &&& forall|i: int, j: int|
            0 <= i < j < self.purchases.len() ==> #[trigger] self.purchases[i].id
                < #[trigger] self.purchases[j].id
        &&& forall|i: int|
            0 <= i < self.purchases.len() ==> self.has_asset(#[trigger] self.purchases[i].asset_id)
    }

    pub open spec fn has_asset(self, asset_id: i64) -> bool {
        exists|j: int| 0 <= j < self.assets.len() && #[trigger] self.assets[j].id == asset_id
    }

    /// No user holds two assets whose names differ only in ASCII case.
    pub open spec fn asset_names_distinct(self) -> bool {
        forall|i: int, j: int|
            0 <= i < j < self.assets.len() && #[trigger] self.assets[i].user_id
                == #[trigger] self.assets[j].user_id ==> !eq_ignore_ascii_case_spec(
                self.assets[i].name@,
                self.assets[j].name@,
            )
    }

    pub open spec fn with_user(self, u: UserRecord) -> StoreModel {
        StoreModel { next_user_id: self.next_user_id + 1, users: self.users.push(u), ..self }
    }

    pub open spec fn with_asset(self, a: AssetRecord) -> StoreModel {
        StoreModel { next_asset_id: self.next_asset_id + 1, assets: self.assets.push(a), ..self }
    }

    pub open spec fn with_purchase(self, p: PurchaseRecord) -> StoreModel {
        StoreModel {
            next_purchase_id: self.next_purchase_id + 1,
            purchases: self.purchases.push(p),
            ..self
        }
    }

    pub open spec fn username_taken(self, username: Seq<char>) -> bool {
        exists|i: int| 0 <= i < self.users.len() && #[trigger] self.users[i].username@ == username
    }

    pub open spec fn asset_name_taken(self, user_id: i64, name: Seq<char>) -> bool {
        exists|i: int|
            0 <= i < self.assets.len() && #[trigger] self.assets[i].user_id == user_id
                && eq_ignore_ascii_case_spec(self.assets[i].name@, name)
    }

    pub open spec fn owns_asset(self, user_id: i64, asset_id: i64) -> bool {
        exists|i: int|
            0 <= i < self.assets.len() && #[trigger] self.assets[i].id == asset_id
                && self.assets[i].user_id == user_id
    }
}

/// The first user whose username is `key`.
pub open spec fn user_by_username(users: Seq<UserRecord>, key: Seq<char>) -> Option<UserRecord>
    decreases users.len(),
{
    if users.len() == 0 {
        None
    } else if users[0].username@ == key {
        Some(users[0])
    } else {
        user_by_username(users.drop_first(), key)
    }
}

/// The first user whose id is `id`.
pub open spec fn user_by_id(users: Seq<UserRecord>, id: i64) -> Option<UserRecord>
    decreases users.len(),
{
    if users.len() == 0 {
        None
    } else if users[0].id == id {
        Some(users[0])
    } else {
        user_by_id(users.drop_first(), id)
    }
}

/// The username under which a typed username is stored and looked up:
/// trimmed, then in lower case.
pub open spec fn username_key(username: Seq<char>) -> Seq<char> {
    lowercase_of(trim_spec(username))
}

/// Of a username that is ASCII once trimmed, the key is the trimmed text
/// with `A`-`Z` in lower case.
pub open spec fn ascii_key_known(username: Seq<char>) -> bool {
    is_ascii_text(trim_spec(username)) ==> username_key(username) == ascii_lowercase(trim_spec(username))
}

/// Whether a new user may be registered, and if not, why.
pub open spec fn new_user_check(
    s: StoreModel,
    name: Seq<char>,
    username: Seq<char>,
    password: Seq<char>,
) -> Result<(), ErrorModel> {
    if utf8_len(trim_spec(name)) < 2 {
        Err(ErrorModel::InvalidInput("nome deve ter pelo menos 2 caracteres"@))
    } else if utf8_len(username_key(username)) < 3 {
        Err(ErrorModel::InvalidInput("username deve ter pelo menos 3 caracteres"@))
    } else if utf8_len(password) < 6 {
        Err(ErrorModel::InvalidInput("senha deve ter pelo menos 6 caracteres"@))
    } else if s.username_taken(username_key(username)) {
        Err(ErrorModel::Conflict("username ja cadastrado"@))
    } else {
        Ok(())
    }
}

/// Whether a new asset may be added, and if not, why.
pub open spec fn new_asset_check(s: StoreModel, user_id: i64, name: Seq<char>, unit_value_cents: i64) -> Result<
    (),
    ErrorModel,
> {
    if trim_spec(name).len() == 0 {
        Err(ErrorModel::InvalidInput("nome do ativo nao pode ser vazio"@))
    } else if unit_value_cents <= 0 {
        Err(ErrorModel::InvalidInput("valor unitario deve ser positivo"@))
    } else if s.asset_name_taken(user_id, trim_spec(name)) {
        Err(ErrorModel::Conflict("ativo ja cadastrado para esse usuario"@))
    } else {
        Ok(())
    }
}

/// Whether a purchase may be recorded, and if not, why.
pub open spec fn new_purchase_check(
    s: StoreModel,
    user_id: i64,
    asset_id: i64,
    quantity_milli: i64,
    bought_for_cents: i64,
) -> Result<(), ErrorModel> {
    if quantity_milli <= 0 {
        Err(ErrorModel::InvalidInput("quantidade deve ser positiva"@))
    } else if bought_for_cents <= 0 {
        Err(ErrorModel::InvalidInput("valor de compra deve ser positivo"@))
    } else if !s.owns_asset(user_id, asset_id) {
        Err(ErrorModel::NotFound)
    } else {
        Ok(())
    }
}

proof fn lemma_wf_with_user(s: StoreModel, u: UserRecord)
    requires
        s.wf(),
        s.next_user_id < i64::MAX,
        u.id == s.next_user_id + 1,
        !s.username_taken(u.username@),
    ensures
        s.with_user(u).wf(),
{
    let t = s.with_user(u);
    assert(t.assets == s.assets);
    assert(t.purchases == s.purchases);
    assert forall|i: int| 0 <= i < t.users.len() implies 0 < #[trigger] t.users[i].id <= t.next_user_id by {
        if i < s.users.len() {
            assert(t.users[i] == s.users[i]);
        }
    }
    assert forall|i: int, j: int| 0 <= i < j < t.users.len() implies #[trigger] t.users[i].id
        < #[trigger] t.users[j].id && t.users[i].username@ != t.users[j].username@ by {
        assert(t.users[i] == s.users[i]);
        if j < s.users.len() {
            assert(t.users[j] == s.users[j]);
        } else {
            assert(s.users[i].id <= s.next_user_id);
            if s.users[i].username@ == u.username@ {
                assert(s.username_taken(u.username@));
            }
        }
    }
    assert forall|i: int| 0 <= i < t.purchases.len() implies t.has_asset(#[trigger] t.purchases[i].asset_id) by {
        assert(s.has_asset(s.purchases[i].asset_id));
    }
}

proof fn lemma_wf_with_asset(s: StoreModel, a: AssetRecord)
    requires
        s.wf(),
        s.next_asset_id < i64::MAX,
        a.id == s.next_asset_id + 1,
        a.unit_value_cents > 0,
    ensures
        s.with_asset(a).wf(),
{
    let t = s.with_asset(a);
    assert forall|i: int| 0 <= i < t.assets.len() implies 0 < #[trigger] t.assets[i].id <= t.next_asset_id
        && t.assets[i].unit_value_cents > 0 by {
        if i < s.assets.len() {
            assert(t.assets[i] == s.assets[i]);
        }
    }
    assert forall|i: int, j: int| 0 <= i < j < t.assets.len() implies #[trigger] t.assets[i].id
        < #[trigger] t.assets[j].id by {
        assert(t.assets[i] == s.assets[i]);
        if j < s.assets.len() {
            assert(t.assets[j] == s.assets[j]);
        } else {
            assert(s.assets[i].id <= s.next_asset_id);
        }
    }
    assert forall|x: i64| s.has_asset(x) implies t.has_asset(x) by {
        let j = choose|j: int| 0 <= j < s.assets.len() && #[trigger] s.assets[j].id == x;
        assert(t.assets[j] == s.assets[j]);
        assert(t.assets[j].id == x);
    }
    assert forall|i: int| 0 <= i < t.purchases.len() implies t.has_asset(#[trigger] t.purchases[i].asset_id) by {
        assert(t.purchases[i] == s.purchases[i]);
        assert(s.has_asset(s.purchases[i].asset_id));
    }
}

proof fn lemma_wf_with_purchase(s: StoreModel, p: PurchaseRecord)
    requires
        s.wf(),
        s.next_purchase_id < i64::MAX,
        p.id == s.next_purchase_id + 1,
        p.quantity_milli > 0,
        p.bought_for_cents > 0,
        s.has_asset(p.asset_id),
    ensures
        s.with_purchase(p).wf(),
{
    let t = s.with_purchase(p);
    assert(t.assets == s.assets);
    assert forall|x: i64| s.has_asset(x) implies t.has_asset(x) by {
        let j = choose|j: int| 0 <= j < s.assets.len() && #[trigger] s.assets[j].id == x;
        assert(t.assets[j].id == x);
    }
    assert forall|i: int| 0 <= i < t.purchases.len() implies 0 < #[trigger] t.purchases[i].id
        <= t.next_purchase_id && t.purchases[i].quantity_milli > 0 && t.purchases[i].bought_for_cents > 0
        && t.has_asset(t.purchases[i].asset_id) by {
        if i < s.purchases.len() {
            assert(t.purchases[i] == s.purchases[i]);
            assert(s.has_asset(s.purchases[i].asset_id));
        }
    }
    assert forall|i: int, j: int| 0 <= i < j < t.purchases.len() implies #[trigger] t.purchases[i].id
        < #[trigger] t.purchases[j].id by {
        assert(t.purchases[i] == s.purchases[i]);
        if j < s.purchases.len() {
            assert(t.purchases[j] == s.purchases[j]);
        } else {
            assert(s.purchases[i].id <= s.next_purchase_id);
        }
    }
}

impl Default for MemoryStore {
    /// An empty store.
    fn default() -> (s: Self)
        ensures
            s@.wf(),
            s@.asset_names_distinct(),
            s@.next_user_id == 0,
            s@.next_asset_id == 0,
            s@.next_purchase_id == 0,
            s@.users.len() == 0,
            s@.assets.len() == 0,
            s@.purchases.len() == 0,
    {
        MemoryStore {
            next_user_id: 0,
            next_asset_id: 0,
            next_purchase_id: 0,
            users: Vec::new(),
            assets: Vec::new(),
            purchases: Vec::new(),
        }
    }
}

impl MemoryStore {
    /// Whether another user can still be numbered.
    pub fn can_add_user(&self) -> (b: bool)
        ensures
            b == (self@.next_user_id < i64::MAX),
    {
        self.next_user_id < i64::MAX
    }

    /// Whether another asset can still be numbered.
    pub fn can_add_asset(&self) -> (b: bool)
        ensures
            b == (self@.next_asset_id < i64::MAX),
    {
        self.next_asset_id < i64::MAX
    }

    /// Whether another purchase can still be numbered.
    pub fn can_add_purchase(&self) -> (b: bool)
        ensures
            b == (self@.next_purchase_id < i64::MAX),
    {
        self.next_purchase_id < i64::MAX
    }

    fn user_id(&mut self) -> (id: i64)
        requires
            old(self).next_user_id < i64::MAX,
        ensures
            id == old(self).next_user_id + 1,
            final(self).next_user_id == id,
            final(self).next_asset_id == old(self).next_asset_id,
            final(self).next_purchase_id == old(self).next_purchase_id,
            final(self).users == old(self).users,
            final(self).assets == old(self).assets,
            final(self).purchases == old(self).purchases,
    {
        self.next_user_id += 1;
        self.next_user_id
    }

    fn asset_id(&mut self) -> (id: i64)
        requires
            old(self).next_asset_id < i64::MAX,
        ensures
            id == old(self).next_asset_id + 1,
            final(self).next_asset_id == id,
            final(self).next_user_id == old(self).next_user_id,
            final(self).next_purchase_id == old(self).next_purchase_id,
            final(self).users == old(self).users,
            final(self).assets == old(self).assets,
            final(self).purchases == old(self).purchases,
    {
        self.next_asset_id += 1;
        self.next_asset_id
    }

    fn purchase_id(&mut self) -> (id: i64)
        requires
            old(self).next_purchase_id < i64::MAX,
        ensures
            id == old(self).next_purchase_id + 1,
            final(self).next_purchase_id == id,
            final(self).next_user_id == old(self).next_user_id,
            final(self).next_asset_id == old(self).next_asset_id,
            final(self).users == old(self).users,
            final(self).assets == old(self).assets,
            final(self).purchases == old(self).purchases,
    {
        self.next_purchase_id += 1;
        self.next_purchase_id
    }

    /// Adds a user with the next id and the given, already checked, name,
    /// username and password hash.
    pub fn insert_user(&mut self, name: String, username: String, password_hash: String) -> (u:
        UserRecord)
        requires
            old(self)@.wf(),
            old(self)@.next_user_id < i64::MAX,
            !old(self)@.username_taken(username@),
        ensures
            final(self)@.wf(),
            u.id == old(self)@.next_user_id + 1,
            u.name == name,
            u.username == username,
            u.password_hash == password_hash,
            final(self)@ == old(self)@.with_user(u),
    {
        let id = self.user_id();
        let user = UserRecord { id, name, username, password_hash };
        self.users.push(user.clone());
        assert(self@ =~= old(self)@.with_user(user));
        proof {
            lemma_wf_with_user(old(self)@, user);
        }
        user
    }
}

/// Finds the user with a username, typed as at registration (trimmed, any
/// case).
pub fn find_user_by_username(store: &MemoryStore, username: &str) -> (r: Option<UserRecord>)
    ensures
        r == user_by_username(store@.users, username_key(username@)),
        ascii_key_known(username@),
{
    let key = to_lowercase(trim(username).as_str());
    let mut i: usize = 0;
    assert(store.users@.skip(0) =~= store.users@);
    while i < store.users.len()
        invariant
            i <= store.users.len(),
            key@ == username_key(username@),
            ascii_key_known(username@),
            user_by_username(store.users@, key@) == user_by_username(store.users@.skip(i as int), key@),
        decreases store.users.len() - i,
    {
        assert(store.users@.skip(i as int).drop_first() =~= store.users@.skip(i + 1));
        if store.users[i].username == key {
            return Some(store.users[i].clone());
        }
        i = i + 1;
    }
    None
}

/// Finds the user with an id.
pub fn find_user_by_id(store: &MemoryStore, user_id: i64) -> (r: Option<UserRecord>)
    ensures
        r == user_by_id(store@.users, user_id),
{
    let mut i: usize = 0;
    assert(store.users@.skip(0) =~= store.users@);
    while i < store.users.len()
        invariant
            i <= store.users.len(),
            user_by_id(store.users@, user_id) == user_by_id(store.users@.skip(i as int), user_id),
        decreases store.users.len() - i,
    {
        assert(store.users@.skip(i as int).drop_first() =~= store.users@.skip(i + 1));
        if store.users[i].id == user_id {
            return Some(store.users[i].clone());
        }
        i = i + 1;
    }
    None
}

fn username_taken(store: &MemoryStore, username: &String) -> (b: bool)
    ensures
        b == store@.username_taken(username@),
{
    let mut i: usize = 0;
    while i < store.users.len()
        invariant
            i <= store.users.len(),
            forall|j: int| 0 <= j < i ==> store.users@[j].username@ != username@,
        decreases store.users.len() - i,
    {
        if store.users[i].username == *username {
            assert(store@.users[i as int].username@ == username@);
            return true;
        }
        i = i + 1;
    }
    false
}

/// Checks a registration without changing the store: on success, the
/// name and username as they will be stored (trimmed; trimmed and in lower
/// case), else the error that `create_user` answers.
pub fn user_check(store: &MemoryStore, name: &str, username: &str, password: &str) -> (r: Result<
    (String, String),
    AppError,
>)
    ensures
        match new_user_check(store@, name@, username@, password@) {
            Err(e) => r matches Err(x) && x@ == e,
            Ok(_) => r matches Ok((n, u)) && n@ == trim_spec(name@) && u@ == username_key(username@),
        },
        ascii_key_known(username@),
{
    let name = trim(name);
    let username = to_lowercase(trim(username).as_str());
    if utf8_len_below(name.as_str(), 2) {
        return Err(AppError::InvalidInput(String::from_str("nome deve ter pelo menos 2 caracteres")));
    }
    if utf8_len_below(username.as_str(), 3) {
        return Err(
            AppError::InvalidInput(String::from_str("username deve ter pelo menos 3 caracteres")),
        );
    }
    if utf8_len_below(password, 6) {
        return Err(AppError::InvalidInput(String::from_str("senha deve ter pelo menos 6 caracteres")));
    }
    if username_taken(store, &username) {
        return Err(AppError::Conflict(String::from_str("username ja cadastrado")));
    }
    Ok((name, username))
}

/// Registers a user: the name is trimmed, the username trimmed and put in
/// lower case, and the password stored as a salted hash. A refused
/// registration leaves the store as it was.
pub fn create_user(store: &mut MemoryStore, name: &str, username: &str, password: &str) -> (r: Result<
    UserRecord,
    AppError,
>)
    requires
        old(store)@.wf(),
        new_user_check(old(store)@, name@, username@, password@) is Ok ==> old(store)@.next_user_id
            < i64::MAX && utf8_len(password@) <= 0xFFFF_FFFF,
    ensures
        final(store)@.wf(),
        ascii_key_known(username@),
        match new_user_check(old(store)@, name@, username@, password@) {
            Err(e) => r matches Err(x) && x@ == e && final(store)@ == old(store)@,
            Ok(_) => r matches Ok(u) && u.id == old(store)@.next_user_id + 1 && u.name@ == trim_spec(
                name@,
            ) && u.username@ == username_key(username@) && password_matches(
                password@,
                u.password_hash@,
            ) && final(store)@ == old(store)@.with_user(u),
        },
{
    let (name, username) = match user_check(store, name, username, password) {
        Ok(checked) => checked,
        Err(e) => {
            return Err(e);
        },
    };
    let password_hash = generate_hash(password);
    Ok(store.insert_user(name, username, password_hash))
}

/// Checks a username and password: `Ok` with the user when the password
/// verifies against the stored hash, `Unauthorized` otherwise.
pub fn verify_user_password(store: &MemoryStore, username: &str, password: &str) -> (r: Result<
    UserRecord,
    AppError,
>)
    ensures
        ascii_key_known(username@),
        match user_by_username(store@.users, username_key(username@)) {
            None => r matches Err(e) && e@ == ErrorModel::Unauthorized,
            Some(u) => if password_matches(password@, u.password_hash@) {
                r == Ok::<UserRecord, AppError>(u)
            } else {
                r matches Err(e) && e@ == ErrorModel::Unauthorized
            },
        },
{
    let user = match find_user_by_username(store, username) {
        Some(u) => u,
        None => {
            return Err(AppError::Unauthorized);
        },
    };
    match verify_password(password, user.password_hash.as_str()) {
        Ok(()) => Ok(user),
        Err(_) => Err(AppError::Unauthorized),
    }
}

fn asset_name_taken(store: &MemoryStore, user_id: i64, name: &String) -> (b: bool)
    ensures
        b == store@.asset_name_taken(user_id, name@),
{
    let mut i: usize = 0;
    while i < store.assets.len()
        invariant
            i <= store.assets.len(),
            forall|j: int|
                0 <= j < i ==> !(store.assets@[j].user_id == user_id && eq_ignore_ascii_case_spec(
                    #[trigger] store.assets@[j].name@,
                    name@,
                )),
        decreases store.assets.len() - i,
    {
        if store.assets[i].user_id == user_id && eq_ignore_ascii_case(
            store.assets[i].name.as_str(),
            name.as_str(),
        ) {
            assert(store@.assets[i as int].user_id == user_id);
            return true;
        }
        i = i + 1;
    }
    false
}

fn owns_asset(store: &MemoryStore, user_id: i64, asset_id: i64) -> (b: bool)
    ensures
        b == store@.owns_asset(user_id, asset_id),
{
    let mut i: usize = 0;
    while i < store.assets.len()
        invariant
            i <= store.assets.len(),
            forall|j: int|
                0 <= j < i ==> !(#[trigger] store.assets@[j].id == asset_id && store.assets@[j].user_id
                    == user_id),
        decreases store.assets.len() - i,
    {
        if store.assets[i].id == asset_id && store.assets[i].user_id == user_id {
            assert(store@.assets[i as int].id == asset_id);
            return true;
        }
        i = i + 1;
    }
    false
}

/// Checks a new asset without changing the store: on success, the name as
/// it will be stored (trimmed), else the error that `create_asset` answers.
pub fn asset_check(store: &MemoryStore, user_id: i64, name: &str, unit_value_cents: i64) -> (r: Result<
    String,
    AppError,
>)
    ensures
        match new_asset_check(store@, user_id, name@, unit_value_cents) {
            Err(e) => r matches Err(x) && x@ == e,
            Ok(_) => r matches Ok(n) && n@ == trim_spec(name@),
        },
{
    let trimmed = trim(name);
    if trimmed.as_str().is_empty() {
        return Err(AppError::InvalidInput(String::from_str("nome do ativo nao pode ser vazio")));
    }
    if unit_value_cents <= 0 {
        return Err(AppError::InvalidInput(String::from_str("valor unitario deve ser positivo")));
    }
    if asset_name_taken(store, user_id, &trimmed) {
        return Err(AppError::Conflict(String::from_str("ativo ja cadastrado para esse usuario")));
    }
    Ok(trimmed)
}

/// Adds an asset for a user: the name is trimmed and must not be empty, the
/// value per unit must be positive, and the user must not already hold an
/// asset of the same name, ignoring ASCII case. A refused asset leaves the
/// store as it was.
pub fn create_asset(store: &mut MemoryStore, user_id: i64, name: &str, unit_value_cents: i64) -> (r:
    Result<AssetRecord, AppError>)
    requires
        old(store)@.wf(),
        new_asset_check(old(store)@, user_id, name@, unit_value_cents) is Ok ==> old(store)@.next_asset_id
            < i64::MAX,
    ensures
        final(store)@.wf(),
        old(store)@.asset_names_distinct() ==> final(store)@.asset_names_distinct(),
        match new_asset_check(old(store)@, user_id, name@, unit_value_cents) {
            Err(e) => r matches Err(x) && x@ == e && final(store)@ == old(store)@,
            Ok(_) => r matches Ok(a) && a.id == old(store)@.next_asset_id + 1 && a.user_id == user_id
                && a.name@ == trim_spec(name@) && a.unit_value_cents == unit_value_cents
                && final(store)@ == old(store)@.with_asset(a),
        },
{
    let trimmed = match asset_check(store, user_id, name, unit_value_cents) {
        Ok(n) => n,
        Err(e) => {
            return Err(e);
        },
    };
    let id = store.asset_id();
    let asset = AssetRecord { id, user_id, name: trimmed, unit_value_cents };
    store.assets.push(asset.clone());
    assert(store@ =~= old(store)@.with_asset(asset));
    proof {
        let s = store@;
        lemma_wf_with_asset(old(store)@, asset);
        if old(store)@.asset_names_distinct() {
            assert forall|a: int, b: int|
                0 <= a < b < s.assets.len() && #[trigger] s.assets[a].user_id
                    == #[trigger] s.assets[b].user_id implies !eq_ignore_ascii_case_spec(
                s.assets[a].name@,
                s.assets[b].name@,
            ) by {
                if b == s.assets.len() - 1 {
                    assert(s.assets[a] == old(store)@.assets[a]);
                } else {
                    assert(s.assets[a] == old(store)@.assets[a]);
                    assert(s.assets[b] == old(store)@.assets[b]);
                }
            }
        }
    }
    Ok(asset)
}

/// Checks a purchase without changing the store: the error that
/// `create_purchase` answers, if any.
pub fn purchase_check(
    store: &MemoryStore,
    user_id: i64,
    asset_id: i64,
    quantity_milli: i64,
    bought_for_cents: i64,
) -> (r: Result<(), AppError>)
    ensures
        match new_purchase_check(store@, user_id, asset_id, quantity_milli, bought_for_cents) {
            Err(e) => r matches Err(x) && x@ == e,
            Ok(_) => r is Ok,
        },
{
    if quantity_milli <= 0 {
        return Err(AppError::InvalidInput(String::from_str("quantidade deve ser positiva")));
    }
    if bought_for_cents <= 0 {
        return Err(AppError::InvalidInput(String::from_str("valor de compra deve ser positivo")));
    }
    if !owns_asset(store, user_id, asset_id) {
        return Err(AppError::NotFound);
    }
    Ok(())
}

/// Records a purchase of one of the user's assets, dated "agora". A
/// refused purchase leaves the store as it was.
pub fn create_purchase(
    store: &mut MemoryStore,
    user_id: i64,
    asset_id: i64,
    quantity_milli: i64,
    bought_for_cents: i64,
) -> (r: Result<(), AppError>)
    requires
        old(store)@.wf(),
        new_purchase_check(old(store)@, user_id, asset_id, quantity_milli, bought_for_cents) is Ok
            ==> old(store)@.next_purchase_id < i64::MAX,
    ensures
        final(store)@.wf(),
        old(store)@.asset_names_distinct() ==> final(store)@.asset_names_distinct(),
        match new_purchase_check(old(store)@, user_id, asset_id, quantity_milli, bought_for_cents) {
            Err(e) => r matches Err(x) && x@ == e && final(store)@ == old(store)@,
            Ok(_) => r is Ok && exists|p: PurchaseRecord|
                p.id == old(store)@.next_purchase_id + 1 && p.asset_id == asset_id && p.quantity_milli
                    == quantity_milli && p.bought_for_cents == bought_for_cents && p.purchase_date@
                    == "agora"@ && final(store)@ == old(store)@.with_purchase(p),
        },
{
    match purchase_check(store, user_id, asset_id, quantity_milli, bought_for_cents) {
        Ok(()) => {},
        Err(e) => {
            return Err(e);
        },
    }
    let id = store.purchase_id();
    let purchase = PurchaseRecord {
        id,
        asset_id,
        quantity_milli,
        bought_for_cents,
        purchase_date: String::from_str("agora"),
    };
    store.purchases.push(purchase);
    assert(store@ =~= old(store)@.with_purchase(purchase));
    proof {
        let j = choose|j: int|
            0 <= j < old(store)@.assets.len() && #[trigger] old(store)@.assets[j].id == asset_id
                && old(store)@.assets[j].user_id == user_id;
        assert(old(store)@.has_asset(asset_id));
        lemma_wf_with_purchase(old(store)@, purchase);
    }
    Ok(())
}

// ---------------------------------------------------------------------------
// The dashboard
// ---------------------------------------------------------------------------
/// The assets of a user, in the order they were added.
pub open spec fn assets_of(assets: Seq<AssetRecord>, user_id: i64) -> Seq<AssetRecord>
    decreases assets.len(),
{
    if assets.len() == 0 {
        Seq::<AssetRecord>::empty()
    } else {
        let r = assets_of(assets.drop_last(), user_id);
        if assets.last().user_id == user_id {
            r.push(assets.last())
        } else {
            r
        }
    }
}

/// The purchases of an asset, in the order they were made.
pub open spec fn purchases_of(purchases: Seq<PurchaseRecord>, asset_id: i64) -> Seq<PurchaseRecord>
    decreases purchases.len(),
{
    if purchases.len() == 0 {
        Seq::<PurchaseRecord>::empty()
    } else {
        let r = purchases_of(purchases.drop_last(), asset_id);
        if purchases.last().asset_id == asset_id {
            r.push(purchases.last())
        } else {
            r
        }
    }
}

/// The change in cents of one purchase at the asset's current value.
pub open spec fn purchase_change(a: AssetRecord, p: PurchaseRecord) -> int {
    trunc_div((a.unit_value_cents - p.bought_for_cents) * p.quantity_milli, 1000)
}

/// The sum of the quantities of some purchases.
pub open spec fn total_quantity(ps: Seq<PurchaseRecord>) -> int
    decreases ps.len(),
{
    if ps.len() == 0 {
        0
    } else {
        total_quantity(ps.drop_last()) + ps.last().quantity_milli
    }
}

/// The sum of the changes of some purchases of asset `a`.
pub open spec fn total_change(a: AssetRecord, ps: Seq<PurchaseRecord>) -> int
    decreases ps.len(),
{
    if ps.len() == 0 {
        0
    } else {
        total_change(a, ps.drop_last()) + purchase_change(a, ps.last())
    }
}

pub open spec fn in_i64(x: int) -> bool {
    i64::MIN <= x <= i64::MAX
}

/// The products and running sums of the dashboard of asset `a` fit in
/// `i64` at every step (past that, the arithmetic overflows).
pub open spec fn sums_in_range(a: AssetRecord, ps: Seq<PurchaseRecord>) -> bool {
    &&& forall|k: int|
        0 <= k < ps.len() ==> in_i64((a.unit_value_cents - #[trigger] ps[k].bought_for_cents) * ps[k].quantity_milli)
    &&& forall|k: int|
        0 <= k <= ps.len() ==> i64::MIN <= #[trigger] total_change(a, ps.take(k)) <= i64::MAX
            && in_i64(total_quantity(ps.take(k)))
}

/// The dashboard of asset `a` can be computed and shown: its sums fit in
/// `i64`, and the total change is not `i64::MIN`, whose magnitude has no
/// `i64`.
pub open spec fn asset_in_range(a: AssetRecord, ps: Seq<PurchaseRecord>) -> bool {
    sums_in_range(a, ps) && total_change(a, ps) > i64::MIN
}

/// The dashboard of a user can be computed without overflow.
pub open spec fn portfolio_in_range(s: StoreModel, user_id: i64) -> bool {
    forall|i: int|
        0 <= i < assets_of(s.assets, user_id).len() ==> asset_in_range(
            #[trigger] assets_of(s.assets, user_id)[i],
            purchases_of(s.purchases, assets_of(s.assets, user_id)[i].id),
        )
}

/// `v` shows purchase `p` of asset `a`.
pub open spec fn purchase_view_matches(v: PurchaseView, a: AssetRecord, p: PurchaseRecord) -> bool {
    &&& v.id == p.id
    &&& v.purchase_date@ == p.purchase_date@
    &&& v.quantity@ == quantity_text(p.quantity_milli as int)
    &&& v.bought_for@ == money_text(p.bought_for_cents as int)
    &&& v.change@ == signed_money_text(purchase_change(a, p))
    &&& v.change_is_positive == (purchase_change(a, p) >= 0)
}

/// `v` shows asset `a` with its purchases `ps`.
pub open spec fn asset_view_matches(v: AssetView, a: AssetRecord, ps: Seq<PurchaseRecord>) -> bool {
    &&& v.id == a.id
    &&& v.name@ == a.name@
    &&& v.quantity@ == quantity_text(total_quantity(ps))
    &&& v.unit_value@ == money_text(a.unit_value_cents as int)
    &&& v.change@ == signed_money_text(total_change(a, ps))
    &&& v.change_is_positive == (total_change(a, ps) >= 0)
    &&& v.purchases.len() == ps.len()
    &&& forall|k: int| 0 <= k < ps.len() ==> purchase_view_matches(#[trigger] v.purchases@[k], a, ps[k])
}

proof fn lemma_assets_of_prefix(s: Seq<AssetRecord>, user_id: i64, i: int, n: int)
    requires
        0 <= i <= n <= s.len(),
    ensures
        assets_of(s.take(i), user_id).len() <= assets_of(s.take(n), user_id).len(),
        assets_of(s.take(i), user_id) == assets_of(s.take(n), user_id).take(
            assets_of(s.take(i), user_id).len() as int,
        ),
    decreases n - i,
{
    if i < n {
        lemma_assets_of_prefix(s, user_id, i, n - 1);
        assert(s.take(n).drop_last() =~= s.take(n - 1));
        let a = assets_of(s.take(i), user_id);
        let b = assets_of(s.take(n - 1), user_id);
        let c = assets_of(s.take(n), user_id);
        assert(a =~= c.take(a.len() as int));
    } else {
        let a = assets_of(s.take(i), user_id);
        assert(a =~= a.take(a.len() as int));
    }
}

proof fn lemma_purchases_of_prefix(s: Seq<PurchaseRecord>, asset_id: i64, i: int, n: int)
    requires
        0 <= i <= n <= s.len(),
    ensures
        purchases_of(s.take(i), asset_id).len() <= purchases_of(s.take(n), asset_id).len(),
        purchases_of(s.take(i), asset_id) == purchases_of(s.take(n), asset_id).take(
            purchases_of(s.take(i), asset_id).len() as int,
        ),
    decreases n - i,
{
    if i < n {
        lemma_purchases_of_prefix(s, asset_id, i, n - 1);
        assert(s.take(n).drop_last() =~= s.take(n - 1));
        let a = purchases_of(s.take(i), asset_id);
        let c = purchases_of(s.take(n), asset_id);
        assert(a =~= c.take(a.len() as int));
    } else {
        let a = purchases_of(s.take(i), asset_id);
        assert(a =~= a.take(a.len() as int));
    }
}

/// The dashboard entry of one asset.
#[verifier::spinoff_prover]
fn asset_view(store: &MemoryStore, asset: &AssetRecord) -> (v: AssetView)
    requires
        store@.wf(),
        asset.unit_value_cents > 0,
        asset_in_range(*asset, purchases_of(store@.purchases, asset.id)),
    ensures
        asset_view_matches(v, *asset, purchases_of(store@.purchases, asset.id)),
{
    let ghost full = purchases_of(store@.purchases, asset.id);
    let mut total_quantity_milli: i64 = 0;
    let mut total_change_cents: i64 = 0;
    let mut purchase_views: Vec<PurchaseView> = Vec::new();
    let mut j: usize = 0;
    while j < store.purchases.len()
        invariant
            store@.wf(),
            asset.unit_value_cents > 0,
            full == purchases_of(store@.purchases, asset.id),
            asset_in_range(*asset, full),
            j <= store.purchases.len(),
            purchases_of(store.purchases@.take(j as int), asset.id) == full.take(
                purchases_of(store.purchases@.take(j as int), asset.id).len() as int,
            ),
            purchases_of(store.purchases@.take(j as int), asset.id).len() <= full.len(),
            total_quantity_milli == total_quantity(purchases_of(store.purchases@.take(j as int), asset.id)),
            total_change_cents == total_change(*asset, purchases_of(store.purchases@.take(j as int), asset.id)),
            purchase_views.len() == purchases_of(store.purchases@.take(j as int), asset.id).len(),
            forall|k: int|
                0 <= k < purchase_views.len() ==> purchase_view_matches(
                    #[trigger] purchase_views@[k],
                    *asset,
                    purchases_of(store.purchases@.take(j as int), asset.id)[k],
                ),
        decreases store.purchases.len() - j,
    {
        let ghost before = purchases_of(store.purchases@.take(j as int), asset.id);
        assert(store.purchases@.take(j + 1).drop_last() =~= store.purchases@.take(j as int));
        proof {
            lemma_purchases_of_prefix(store.purchases@, asset.id, j + 1, store.purchases@.len() as int);
            assert(store.purchases@.take(store.purchases@.len() as int) =~= store.purchases@);
        }
        let purchase = &store.purchases[j];
        if purchase.asset_id == asset.id {
            let ghost m = before.len() as int;
            let ghost after = before.push(*purchase);
            assert(after == full.take(m + 1));
            assert(after[m] == *purchase);
            assert(full.take(m + 1)[m] == full[m]);
            assert(full[m] == *purchase);
            assert(after.drop_last() =~= before);
            assert(store@.purchases[j as int] == *purchase);
            assert(store@.purchases[j as int].id > 0);
            assert(in_i64((asset.unit_value_cents - full[m].bought_for_cents) * full[m].quantity_milli));
            assert(sums_in_range(*asset, full));
            assert(m + 1 <= full.len());
            assert(in_i64(total_change(*asset, full.take(m + 1))) && in_i64(
                total_quantity(full.take(m + 1)),
            ));
            let change = change_cents(asset.unit_value_cents, purchase.bought_for_cents, purchase.quantity_milli);
            assert(change > i64::MIN);
            total_quantity_milli = total_quantity_milli + purchase.quantity_milli;
            total_change_cents = total_change_cents + change;
            let pv = PurchaseView {
                id: purchase.id,
                purchase_date: purchase.purchase_date.clone(),
                quantity: format_quantity(purchase.quantity_milli),
                bought_for: format_money(purchase.bought_for_cents),
                change: format_signed_money(change),
                change_is_positive: change >= 0,
            };
            purchase_views.push(pv);
            assert forall|k: int| 0 <= k < purchase_views.len() implies purchase_view_matches(
                #[trigger] purchase_views@[k],
                *asset,
                after[k],
            ) by {
                if k < m {
                    assert(after[k] == before[k]);
                }
            }
        }
        j = j + 1;
    }
    assert(store.purchases@.take(store.purchases.len() as int) =~= store.purchases@);
    assert(full.take(full.len() as int) =~= full);
    AssetView {
        id: asset.id,
        name: asset.name.clone(),
        quantity: format_quantity(total_quantity_milli),
        unit_value: format_money(asset.unit_value_cents),
        change: format_signed_money(total_change_cents),
        change_is_positive: total_change_cents >= 0,
        purchases: purchase_views,
    }
}

#[verifier::spinoff_prover]
fn asset_fits(store: &MemoryStore, asset: &AssetRecord) -> (b: bool)
    requires
        store@.wf(),
        asset.unit_value_cents > 0,
    ensures
        b == asset_in_range(*asset, purchases_of(store@.purchases, asset.id)),
{
    let ghost full = purchases_of(store@.purchases, asset.id);
    let mut total_quantity_milli: i64 = 0;
    let mut total_change_cents: i64 = 0;
    let mut j: usize = 0;
    assert(purchases_of(store.purchases@.take(0), asset.id) =~= Seq::<PurchaseRecord>::empty());
    while j < store.purchases.len()
        invariant
            store@.wf(),
            asset.unit_value_cents > 0,
            full == purchases_of(store@.purchases, asset.id),
            j <= store.purchases.len(),
            purchases_of(store.purchases@.take(j as int), asset.id) == full.take(
                purchases_of(store.purchases@.take(j as int), asset.id).len() as int,
            ),
            purchases_of(store.purchases@.take(j as int), asset.id).len() <= full.len(),
            sums_in_range(*asset, purchases_of(store.purchases@.take(j as int), asset.id)),
            total_quantity_milli == total_quantity(purchases_of(store.purchases@.take(j as int), asset.id)),
            total_change_cents == total_change(*asset, purchases_of(store.purchases@.take(j as int), asset.id)),
        decreases store.purchases.len() - j,
    {
        let ghost before = purchases_of(store.purchases@.take(j as int), asset.id);
        assert(store.purchases@.take(j + 1).drop_last() =~= store.purchases@.take(j as int));
        proof {
            lemma_purchases_of_prefix(store.purchases@, asset.id, j + 1, store.purchases@.len() as int);
            assert(store.purchases@.take(store.purchases@.len() as int) =~= store.purchases@);
        }
        let purchase = &store.purchases[j];
        if purchase.asset_id == asset.id {
            let ghost m = before.len() as int;
            let ghost after = before.push(*purchase);
            assert(after == full.take(m + 1));
            assert(after[m] == *purchase);
            assert(full.take(m + 1)[m] == full[m]);
            assert(store@.purchases[j as int] == *purchase);
            assert(store@.purchases[j as int].id > 0);
            assert(after.drop_last() =~= before);
            assert(after.take(m + 1) =~= after);
            assert forall|k: int| 0 <= k <= m implies #[trigger] after.take(k) == before.take(k) by {
                assert(after.take(k) =~= before.take(k));
            }
            let diff = asset.unit_value_cents - purchase.bought_for_cents;
            let product = match diff.checked_mul(purchase.quantity_milli) {
                Some(p) => p,
                None => {
                    assert(!asset_in_range(*asset, full)) by {
                        assert(full[m] == after[m]);
                    }
                    return false;
                },
            };
            let change = product / 1000;
            let next_change = match total_change_cents.checked_add(change) {
                Some(t) => t,
                None => {
                    assert(!asset_in_range(*asset, full)) by {
                        assert(full.take(m + 1) == after.take(m + 1));
                        assert(total_change(*asset, full.take(m + 1)) == total_change(*asset, after));
                    }
                    return false;
                },
            };
            let next_quantity = match total_quantity_milli.checked_add(purchase.quantity_milli) {
                Some(t) => t,
                None => {
                    assert(!asset_in_range(*asset, full)) by {
                        assert(total_quantity(full.take(m + 1)) == total_quantity(after));
                        assert(total_change(*asset, full.take(m + 1)) == total_change(*asset, after));
                    }
                    return false;
                },
            };
            total_change_cents = next_change;
            total_quantity_milli = next_quantity;
            assert(sums_in_range(*asset, after)) by {
                assert forall|k: int| 0 <= k < after.len() implies in_i64(
                    (asset.unit_value_cents - #[trigger] after[k].bought_for_cents) * after[k].quantity_milli,
                ) by {
                    if k < m {
                        assert(after[k] == before[k]);
                    }
                }
                assert forall|k: int| 0 <= k <= after.len() implies in_i64(#[trigger] total_change(
                    *asset,
                    after.take(k),
                )) && in_i64(total_quantity(after.take(k))) by {
                    if k <= m {
                        assert(after.take(k) == before.take(k));
                    }
                }
            }
        }
        j = j + 1;
    }
    assert(store.purchases@.take(store.purchases.len() as int) =~= store.purchases@);
    assert(full.take(full.len() as int) =~= full);
    if total_change_cents == i64::MIN {
        return false;
    }
    true
}

/// Whether the dashboard of a user can be computed without overflow, which
/// `portfolio_for_user` needs.
pub fn portfolio_fits(store: &MemoryStore, user_id: i64) -> (b: bool)
    requires
        store@.wf(),
    ensures
        b == portfolio_in_range(store@, user_id),
{
    let ghost all = assets_of(store@.assets, user_id);
    let mut i: usize = 0;
    while i < store.assets.len()
        invariant
            store@.wf(),
            all == assets_of(store@.assets, user_id),
            i <= store.assets.len(),
            assets_of(store.assets@.take(i as int), user_id) == all.take(
                assets_of(store.assets@.take(i as int), user_id).len() as int,
            ),
            assets_of(store.assets@.take(i as int), user_id).len() <= all.len(),
            forall|k: int|
                0 <= k < assets_of(store.assets@.take(i as int), user_id).len() ==> asset_in_range(
                    #[trigger] all[k],
                    purchases_of(store@.purchases, all[k].id),
                ),
        decreases store.assets.len() - i,
    {
        let ghost before = assets_of(store.assets@.take(i as int), user_id);
        assert(store.assets@.take(i + 1).drop_last() =~= store.assets@.take(i as int));
        proof {
            lemma_assets_of_prefix(store.assets@, user_id, i + 1, store.assets@.len() as int);
            assert(store.assets@.take(store.assets@.len() as int) =~= store.assets@);
        }
        let asset = &store.assets[i];
        if asset.user_id == user_id {
            let ghost m = before.len() as int;
            assert(before.push(*asset) == all.take(m + 1));
            assert(before.push(*asset)[m] == *asset);
            assert(all.take(m + 1)[m] == all[m]);
            assert(store@.assets[i as int] == *asset);
            assert(store@.assets[i as int].id > 0);
            if !asset_fits(store, asset) {
                assert(!asset_in_range(all[m], purchases_of(store@.purchases, all[m].id)));
                return false;
            }
        }
        i = i + 1;
    }
    assert(store.assets@.take(store.assets.len() as int) =~= store.assets@);
    assert(all.take(all.len() as int) =~= all);
    true
}

/// The dashboard of a user: each of the user's assets, in the order they
/// were added, with its purchases, total quantity, value per unit and total
/// change, as text.
pub fn portfolio_for_user(store: &MemoryStore, user_id: i64) -> (view: Vec<AssetView>)
    requires
        store@.wf(),
        portfolio_in_range(store@, user_id),
    ensures
        view.len() == assets_of(store@.assets, user_id).len(),
        forall|i: int|
            0 <= i < view.len() ==> asset_view_matches(
                #[trigger] view@[i],
                assets_of(store@.assets, user_id)[i],
                purchases_of(store@.purchases, assets_of(store@.assets, user_id)[i].id),
            ),
{
    let ghost all = assets_of(store@.assets, user_id);
    let mut view: Vec<AssetView> = Vec::new();
    let mut i: usize = 0;
    while i < store.assets.len()
        invariant
            store@.wf(),
            portfolio_in_range(store@, user_id),
            all == assets_of(store@.assets, user_id),
            i <= store.assets.len(),
            view.len() == assets_of(store.assets@.take(i as int), user_id).len(),
            forall|k: int|
                0 <= k < view.len() ==> asset_view_matches(
                    #[trigger] view@[k],
                    all[k],
                    purchases_of(store@.purchases, all[k].id),
                ),
        decreases store.assets.len() - i,
    {
        let ghost before = assets_of(store.assets@.take(i as int), user_id);
        assert(store.assets@.take(i + 1).drop_last() =~= store.assets@.take(i as int));
        proof {
            lemma_assets_of_prefix(store.assets@, user_id, i + 1, store.assets@.len() as int);
            assert(store.assets@.take(store.assets@.len() as int) =~= store.assets@);
        }
        let asset = &store.assets[i];
        if asset.user_id == user_id {
            let ghost m = before.len() as int;
            assert(before.push(*asset) == all.take(m + 1));
            assert(before.push(*asset)[m] == *asset);
            assert(all.take(m + 1)[m] == all[m]);
            assert(all[m] == *asset);
            assert(store@.assets[i as int] == *asset);
            assert(store@.assets[i as int].id > 0);
            let v = asset_view(store, asset);
            view.push(v);
        }
        i = i + 1;
    }
    assert(store.assets@.take(store.assets.len() as int) =~= store.assets@);
    view
}

// ---------------------------------------------------------------------------
// Demo data
// ---------------------------------------------------------------------------
pub open spec fn asset_is(a: AssetRecord, id: int, user_id: int, name: Seq<char>, unit_value_cents: int) -> bool {
    a.id == id && a.user_id == user_id && a.name@ == name && a.unit_value_cents == unit_value_cents
}

pub open spec fn purchase_is(
    p: PurchaseRecord,
    id: int,
    asset_id: int,
    quantity_milli: int,
    bought_for_cents: int,
    date: Seq<char>,
) -> bool {
    p.id == id && p.asset_id == asset_id && p.quantity_milli == quantity_milli && p.bought_for_cents
        == bought_for_cents && p.purchase_date@ == date
}

/// `new` is `old` with the demo user, its three assets and five purchases
/// added.
pub open spec fn demo_seeded(old: StoreModel, new: StoreModel) -> bool {
    let uid = old.next_user_id + 1;
    let a = old.next_asset_id;
    let p = old.next_purchase_id;
    let na = old.assets.len() as int;
    let np = old.purchases.len() as int;
    &&& new.next_user_id == uid
    &&& new.next_asset_id == a + 3
    &&& new.next_purchase_id == p + 5
    &&& new.users.len() == 1
    &&& new.users[0].id == uid
    &&& new.users[0].name@ == "Alexandre"@
    &&& new.users[0].username@ == "alexandre"@
    &&& new.assets.len() == na + 3
    &&& new.assets.take(na) == old.assets
    &&& asset_is(new.assets[na], a + 1, uid, "Bitcoin"@, 1000)
    &&& asset_is(new.assets[na + 1], a + 2, uid, "Real"@, 100)
    &&& asset_is(new.assets[na + 2], a + 3, uid, "Dolar"@, 525)
    &&& new.purchases.len() == np + 5
    &&& new.purchases.take(np) == old.purchases
    &&& purchase_is(new.purchases[np], p + 1, a + 1, 5000, 1500, "2026-03-22 15:24"@)
    &&& purchase_is(new.purchases[np + 1], p + 2, a + 1, 10000, 500, "2026-03-22 15:24"@)
    &&& purchase_is(new.purchases[np + 2], p + 3, a + 2, 100000, 100, "2026-03-22 16:25"@)
    &&& purchase_is(new.purchases[np + 3], p + 4, a + 2, 250000, 75, "2026-03-22 16:25"@)
    &&& purchase_is(new.purchases[np + 4], p + 5, a + 3, 500000, 550, "2026-03-22 18:27"@)
}

/// There are numbers left for the demo user, assets and purchases.
pub open spec fn room_for_demo(s: StoreModel) -> bool {
    s.next_user_id < i64::MAX && s.next_asset_id <= i64::MAX - 3 && s.next_purchase_id <= i64::MAX - 5
}

impl MemoryStore {
    fn add_seed_purchase(&mut self, asset_id: i64, quantity_milli: i64, bought_for_cents: i64, purchase_date: &str)
        requires
            old(self)@.wf(),
            old(self)@.next_purchase_id < i64::MAX,
            old(self)@.has_asset(asset_id),
            quantity_milli > 0,
            bought_for_cents > 0,
        ensures
            final(self)@.wf(),
            exists|p: PurchaseRecord|
                #[trigger] purchase_is(
                    p,
                    old(self)@.next_purchase_id + 1,
                    asset_id as int,
                    quantity_milli as int,
                    bought_for_cents as int,
                    purchase_date@,
                ) && final(self)@ == old(self)@.with_purchase(p),
    {
        let id = self.purchase_id();
        let purchase = PurchaseRecord {
            id,
            asset_id,
            quantity_milli,
            bought_for_cents,
            purchase_date: String::from_str(purchase_date),
        };
        self.purchases.push(purchase);
        assert(self@ =~= old(self)@.with_purchase(purchase));
        proof {
            lemma_wf_with_purchase(old(self)@, purchase);
        }
        assert(purchase_is(
            purchase,
            old(self)@.next_purchase_id + 1,
            asset_id as int,
            quantity_milli as int,
            bought_for_cents as int,
            purchase_date@,
        ));
    }

    fn add_seed_asset(&mut self, user_id: i64, name: &str, unit_value_cents: i64) -> (id: i64)
        requires
            old(self)@.wf(),
            old(self)@.next_asset_id < i64::MAX,
            unit_value_cents > 0,
        ensures
            final(self)@.wf(),
            id == old(self)@.next_asset_id + 1,
            final(self)@.has_asset(id),
            exists|a: AssetRecord|
                #[trigger] asset_is(a, id as int, user_id as int, name@, unit_value_cents as int)
                    && final(self)@ == old(self)@.with_asset(a),
    {
        let id = self.asset_id();
        let asset = AssetRecord { id, user_id, name: String::from_str(name), unit_value_cents };
        self.assets.push(asset);
        assert(self@ =~= old(self)@.with_asset(asset));
        proof {
            lemma_wf_with_asset(old(self)@, asset);
        }
        assert(self@.assets[self@.assets.len() - 1].id == id);
        assert(asset_is(asset, id as int, user_id as int, name@, unit_value_cents as int));
        id
    }

    /// Fills an empty store with the demo user "alexandre" (whose password
    /// hash is given), its assets Bitcoin, Real and Dolar, and their
    /// purchases.
    pub fn seed_demo_with_hash(&mut self, password_hash: String)
        requires
            old(self)@.wf(),
            old(self)@.users.len() == 0,
            room_for_demo(old(self)@),
        ensures
            final(self)@.wf(),
            demo_seeded(old(self)@, final(self)@),
            final(self)@.users[0].password_hash == password_hash,
    {
        let ghost s0 = self@;
        let user = UserRecord {
            id: self.user_id(),
            name: String::from_str("Alexandre"),
            username: String::from_str("alexandre"),
            password_hash,
        };
        self.users.push(user.clone());
        assert(self@ =~= s0.with_user(user));
        proof {
            lemma_wf_with_user(s0, user);
        }
        let ghost s1 = self@;
        let bitcoin = self.add_seed_asset(user.id, "Bitcoin", 1_000);
        let ghost s2 = self@;
        self.add_seed_purchase(bitcoin, 5_000, 1_500, "2026-03-22 15:24");
        let ghost s3 = self@;
        assert(s3.has_asset(bitcoin)) by {
            let j = choose|j: int| 0 <= j < s2.assets.len() && #[trigger] s2.assets[j].id == bitcoin;
            assert(s3.assets[j].id == bitcoin);
        }
        self.add_seed_purchase(bitcoin, 10_000, 500, "2026-03-22 15:24");
        let ghost s4 = self@;
        let real_id = self.add_seed_asset(user.id, "Real", 100);
        let ghost s5 = self@;
        self.add_seed_purchase(real_id, 100_000, 100, "2026-03-22 16:25");
        let ghost s6 = self@;
        assert(s6.has_asset(real_id)) by {
            let j = choose|j: int| 0 <= j < s5.assets.len() && #[trigger] s5.assets[j].id == real_id;
            assert(s6.assets[j].id == real_id);
        }
        self.add_seed_purchase(real_id, 250_000, 75, "2026-03-22 16:25");
        let ghost s7 = self@;
        let dollar = self.add_seed_asset(user.id, "Dolar", 525);
        let ghost s8 = self@;
        self.add_seed_purchase(dollar, 500_000, 550, "2026-03-22 18:27");
        let ghost s9 = self@;
        proof {
            let na = s0.assets.len() as int;
            let np = s0.purchases.len() as int;
            let a1 = choose|a: AssetRecord| #[trigger] asset_is(a, bitcoin as int, user.id as int, "Bitcoin"@, 1000) && s2 == s1.with_asset(a);
            let a2 = choose|a: AssetRecord| #[trigger] asset_is(a, real_id as int, user.id as int, "Real"@, 100) && s5 == s4.with_asset(a);
            let a3 = choose|a: AssetRecord| #[trigger] asset_is(a, dollar as int, user.id as int, "Dolar"@, 525) && s8 == s7.with_asset(a);
            let p1 = choose|p: PurchaseRecord| #[trigger] purchase_is(p, s2.next_purchase_id + 1, bitcoin as int, 5000, 1500, "2026-03-22 15:24"@) && s3 == s2.with_purchase(p);
            let p2 = choose|p: PurchaseRecord| #[trigger] purchase_is(p, s3.next_purchase_id + 1, bitcoin as int, 10000, 500, "2026-03-22 15:24"@) && s4 == s3.with_purchase(p);
            let p3 = choose|p: PurchaseRecord| #[trigger] purchase_is(p, s5.next_purchase_id + 1, real_id as int, 100000, 100, "2026-03-22 16:25"@) && s6 == s5.with_purchase(p);
            let p4 = choose|p: PurchaseRecord| #[trigger] purchase_is(p, s6.next_purchase_id + 1, real_id as int, 250000, 75, "2026-03-22 16:25"@) && s7 == s6.with_purchase(p);
            let p5 = choose|p: PurchaseRecord| #[trigger] purchase_is(p, s8.next_purchase_id + 1, dollar as int, 500000, 550, "2026-03-22 18:27"@) && s9 == s8.with_purchase(p);
            assert(s9.assets =~= s0.assets.push(a1).push(a2).push(a3));
            assert(s9.purchases =~= s0.purchases.push(p1).push(p2).push(p3).push(p4).push(p5));
            assert(s9.assets.take(na) =~= s0.assets);
            assert(s9.purchases.take(np) =~= s0.purchases);
            assert(s9.users =~= seq![user]);
        }
    }

    /// Fills a store that has no user yet with the demo user "alexandre"
    /// (password "rust123"), its assets and their purchases; a store that
    /// already has users is left as it is.
    pub fn seed_demo(&mut self)
        requires
            old(self)@.wf(),
            old(self)@.users.len() == 0 ==> room_for_demo(old(self)@),
        ensures
            final(self)@.wf(),
            old(self)@.users.len() != 0 ==> final(self)@ == old(self)@,
            old(self)@.users.len() == 0 ==> demo_seeded(old(self)@, final(self)@) && password_matches(
                "rust123"@,
                final(self)@.users[0].password_hash@,
            ),
    {
        if !self.users.is_empty() {
            return;
        }
        proof {
            reveal_strlit("rust123");
            lemma_utf8_len_bound("rust123"@);
        }
        let password_hash = generate_hash("rust123");
        self.seed_demo_with_hash(password_hash);
    }
}

// ---------------------------------------------------------------------------
// Laws
// ---------------------------------------------------------------------------
proof fn lemma_user_by_username_push(users: Seq<UserRecord>, u: UserRecord)
    requires
        forall|i: int| 0 <= i < users.len() ==> (#[trigger] users[i]).username@ != u.username@,
    ensures
        user_by_username(users.push(u), u.username@) == Some(u),
    decreases users.len(),
{
    if users.len() > 0 {
        let rest = users.drop_first();
        assert forall|i: int| 0 <= i < rest.len() implies (#[trigger] rest[i]).username@ != u.username@ by {
            assert(rest[i] == users[i + 1]);
        }
        lemma_user_by_username_push(rest, u);
        assert(users.push(u).drop_first() =~= rest.push(u));
        assert(users.push(u)[0] == users[0]);
    }
}

proof fn lemma_user_by_id_push(users: Seq<UserRecord>, u: UserRecord)
    requires
        forall|i: int| 0 <= i < users.len() ==> (#[trigger] users[i]).id != u.id,
    ensures
        user_by_id(users.push(u), u.id) == Some(u),
    decreases users.len(),
{
    if users.len() > 0 {
        let rest = users.drop_first();
        assert forall|i: int| 0 <= i < rest.len() implies (#[trigger] rest[i]).id != u.id by {
            assert(rest[i] == users[i + 1]);
        }
        lemma_user_by_id_push(rest, u);
        assert(users.push(u).drop_first() =~= rest.push(u));
        assert(users.push(u)[0] == users[0]);
    }
}

/// Whoever registers can sign in: when `create_user` has added user `u`
/// for the typed `username` and `password` (so that `s2` is `s1` with `u`),
/// looking that username up in `s2` finds `u`, and `password` verifies
/// against its hash, so `verify_user_password` answers `Ok(u)`.
pub proof fn registered_user_can_sign_in(
    s1: StoreModel,
    s2: StoreModel,
    u: UserRecord,
    name: Seq<char>,
    username: Seq<char>,
    password: Seq<char>,
)
    requires
        s1.wf(),
        new_user_check(s1, name, username, password) is Ok,
        u.username@ == username_key(username),
        password_matches(password, u.password_hash@),
        s2 == s1.with_user(u),
    ensures
        user_by_username(s2.users, username_key(username)) == Some(u),
        password_matches(password, user_by_username(s2.users, username_key(username))->0.password_hash@),
{
    assert forall|i: int| 0 <= i < s1.users.len() implies (#[trigger] s1.users[i]).username@ != u.username@ by {
        if s1.users[i].username@ == u.username@ {
            assert(s1.username_taken(username_key(username)));
        }
    }
    lemma_user_by_username_push(s1.users, u);
}

/// Looking a username key up finds nobody exactly when no user has that
/// username, and otherwise a user of the store with exactly that username.
pub proof fn username_lookup(s: StoreModel, key: Seq<char>)
    ensures
        user_by_username(s.users, key) is None <==> !s.username_taken(key),
        user_by_username(s.users, key) matches Some(u) ==> u.username@ == key && s.users.contains(u),
    decreases s.users.len(),
{
    if s.users.len() > 0 && s.users[0].username@ != key {
        let rest = StoreModel { users: s.users.drop_first(), ..s };
        username_lookup(rest, key);
        if s.username_taken(key) {
            let i = choose|i: int| 0 <= i < s.users.len() && #[trigger] s.users[i].username@ == key;
            assert(rest.users[i - 1] == s.users[i]);
        }
        if rest.username_taken(key) {
            let i = choose|i: int| 0 <= i < rest.users.len() && #[trigger] rest.users[i].username@ == key;
            assert(s.users[i + 1] == rest.users[i]);
        }
        if user_by_username(rest.users, key) is Some {
            let u = user_by_username(rest.users, key)->0;
            let i = choose|i: int| 0 <= i < rest.users.len() && rest.users[i] == u;
            assert(s.users[i + 1] == u);
        }
    } else if s.users.len() > 0 {
        assert(s.users[0].username@ == key);
        assert(s.username_taken(key));
    }
}

/// A registered user is found by every spelling of the username whose
/// trimmed lower-case form is the one registered.
pub proof fn registered_user_found_by_any_spelling(
    s1: StoreModel,
    s2: StoreModel,
    u: UserRecord,
    name: Seq<char>,
    username: Seq<char>,
    password: Seq<char>,
    username2: Seq<char>,
)
    requires
        s1.wf(),
        new_user_check(s1, name, username, password) is Ok,
        u.username@ == username_key(username),
        password_matches(password, u.password_hash@),
        s2 == s1.with_user(u),
        username_key(username2) == username_key(username),
    ensures
        user_by_username(s2.users, username_key(username2)) == Some(u),
{
    registered_user_can_sign_in(s1, s2, u, name, username, password);
}

/// A username that is taken is refused: a registration that passes the
/// length checks, with a username whose trimmed lower-case form some user
/// already has, is answered `Conflict` (and `create_user` then leaves the
/// store as it was).
pub proof fn taken_username_refused(s: StoreModel, name: Seq<char>, username: Seq<char>, password: Seq<char>)
    requires
        utf8_len(trim_spec(name)) >= 2,
        utf8_len(username_key(username)) >= 3,
        utf8_len(password) >= 6,
        s.username_taken(username_key(username)),
    ensures
        new_user_check(s, name, username, password) == Err::<(), ErrorModel>(
            ErrorModel::Conflict("username ja cadastrado"@),
        ),
{
}

/// The dashboard lists every purchase of an asset, and only those: no
/// store has purchases of it, and a purchase added to the store joins, at
/// the end, the purchases of its own asset and of no other.
pub proof fn purchases_of_asset_are_its_purchases(ps: Seq<PurchaseRecord>, p: PurchaseRecord, id: i64)
    ensures
        purchases_of(Seq::<PurchaseRecord>::empty(), id) == Seq::<PurchaseRecord>::empty(),
        p.asset_id == id ==> purchases_of(ps.push(p), id) == purchases_of(ps, id).push(p),
        p.asset_id != id ==> purchases_of(ps.push(p), id) == purchases_of(ps, id),
{
    assert(ps.push(p).drop_last() =~= ps);
}

/// The dashboard lists every asset of a user, and only those, in the
/// order they were added: an asset added to the store joins, at the end,
/// the assets of its own user and of no other.
pub proof fn assets_of_user_are_its_assets(assets: Seq<AssetRecord>, a: AssetRecord, user_id: i64)
    ensures
        assets_of(Seq::<AssetRecord>::empty(), user_id) == Seq::<AssetRecord>::empty(),
        a.user_id == user_id ==> assets_of(assets.push(a), user_id) == assets_of(assets, user_id).push(a),
        a.user_id != user_id ==> assets_of(assets.push(a), user_id) == assets_of(assets, user_id),
{
    assert(assets.push(a).drop_last() =~= assets);
}

/// The totals of an asset add up its purchases: nothing for no purchase,
/// and one more purchase adds its quantity to the total quantity and its
/// change, `(unit value - price) * quantity / 1000` rounded toward zero, to
/// the total change.
pub proof fn totals_add_up(a: AssetRecord, ps: Seq<PurchaseRecord>, p: PurchaseRecord)
    ensures
        total_quantity(Seq::<PurchaseRecord>::empty()) == 0,
        total_change(a, Seq::<PurchaseRecord>::empty()) == 0,
        total_quantity(ps.push(p)) == total_quantity(ps) + p.quantity_milli,
        total_change(a, ps.push(p)) == total_change(a, ps) + trunc_div(
            (a.unit_value_cents - p.bought_for_cents) * p.quantity_milli,
            1000,
        ),
{
    assert(ps.push(p).drop_last() =~= ps);
}

/// Looking an id up finds nobody exactly when no user has that id, and
/// otherwise a user of the store with that id.
pub proof fn id_lookup(users: Seq<UserRecord>, id: i64)
    ensures
        user_by_id(users, id) is None <==> !(exists|i: int| 0 <= i < users.len() && #[trigger] users[i].id == id),
        user_by_id(users, id) matches Some(u) ==> u.id == id && users.contains(u),
    decreases users.len(),
{
    if users.len() > 0 && users[0].id != id {
        let rest = users.drop_first();
        id_lookup(rest, id);
        if exists|i: int| 0 <= i < users.len() && #[trigger] users[i].id == id {
            let i = choose|i: int| 0 <= i < users.len() && #[trigger] users[i].id == id;
            assert(rest[i - 1] == users[i]);
        }
        if exists|i: int| 0 <= i < rest.len() && #[trigger] rest[i].id == id {
            let i = choose|i: int| 0 <= i < rest.len() && #[trigger] rest[i].id == id;
            assert(users[i + 1] == rest[i]);
        }
        if user_by_id(rest, id) is Some {
            let u = user_by_id(rest, id)->0;
            let i = choose|i: int| 0 <= i < rest.len() && rest[i] == u;
            assert(users[i + 1] == u);
        }
    } else if users.len() > 0 {
        assert(users[0].id == id);
    }
}

/// Every user of a store is found by its id and by its username, whoever
/// registered before or after it.
pub proof fn every_user_found(s: StoreModel, i: int)
    requires
        s.wf(),
        0 <= i < s.users.len(),
    ensures
        user_by_id(s.users, s.users[i].id) == Some(s.users[i]),
        user_by_username(s.users, s.users[i].username@) == Some(s.users[i]),
{
    let u = s.users[i];
    id_lookup(s.users, u.id);
    assert(s.users[i].id == u.id);
    let v = user_by_id(s.users, u.id)->0;
    let j = choose|j: int| 0 <= j < s.users.len() && s.users[j] == v;
    if j < i {
        assert(s.users[j].id < s.users[i].id);
    } else if j > i {
        assert(s.users[i].id < s.users[j].id);
    }
    username_lookup(s, u.username@);
    assert(s.users[i].username@ == u.username@);
    let w = user_by_username(s.users, u.username@)->0;
    let k = choose|k: int| 0 <= k < s.users.len() && s.users[k] == w;
    if k < i {
        assert(s.users[k].username@ != s.users[i].username@);
    } else if k > i {
        assert(s.users[i].username@ != s.users[k].username@);
    }
}

/// A registration is accepted exactly when the trimmed name has at least 2
/// bytes, the trimmed lower-case username at least 3, the password at least
/// 6 (bytes of their UTF-8 encoding, as `str::len` counts them), and no user
/// has that username yet.
pub proof fn registration_accepted(s: StoreModel, name: Seq<char>, username: Seq<char>, password: Seq<char>)
    ensures
        new_user_check(s, name, username, password) is Ok <==> encode_utf8(trim_spec(name)).len() >= 2
            && encode_utf8(username_key(username)).len() >= 3 && encode_utf8(password).len() >= 6
            && !(exists|i: int| 0 <= i < s.users.len() && #[trigger] s.users[i].username@ == username_key(username)),
{
    utf8_len_is_encoded_length(trim_spec(name));
    utf8_len_is_encoded_length(username_key(username));
    utf8_len_is_encoded_length(password);
}

/// A new asset is accepted exactly when its trimmed name is not empty, its
/// value per unit is positive, and none of the same user's assets has that
/// name, ignoring ASCII case; assets of other users never block it.
pub proof fn asset_accepted(s: StoreModel, user_id: i64, name: Seq<char>, unit_value_cents: i64)
    ensures
        new_asset_check(s, user_id, name, unit_value_cents) is Ok <==> trim_spec(name).len() > 0
            && unit_value_cents > 0 && forall|i: int|
            0 <= i < s.assets.len() && #[trigger] s.assets[i].user_id == user_id ==> !(
            s.assets[i].name@.len() == trim_spec(name).len() && forall|k: int|
                0 <= k < trim_spec(name).len() ==> ascii_lower_code(#[trigger] s.assets[i].name@[k])
                    == ascii_lower_code(trim_spec(name)[k])),
{
}

/// A purchase is accepted exactly when its quantity and price are positive
/// and the asset bought is one of the user's.
pub proof fn purchase_accepted(
    s: StoreModel,
    user_id: i64,
    asset_id: i64,
    quantity_milli: i64,
    bought_for_cents: i64,
)
    ensures
        new_purchase_check(s, user_id, asset_id, quantity_milli, bought_for_cents) is Ok <==> quantity_milli
            > 0 && bought_for_cents > 0 && exists|i: int|
            0 <= i < s.assets.len() && #[trigger] s.assets[i].id == asset_id && s.assets[i].user_id == user_id,
{
}

/// A registered user is found again by id: the id given to a new user is
/// not the id of any user before it.
pub proof fn registered_user_found_by_id(s1: StoreModel, u: UserRecord)
    requires
        s1.wf(),
        u.id == s1.next_user_id + 1,
    ensures
        user_by_id(s1.with_user(u).users, u.id) == Some(u),
{
    assert forall|i: int| 0 <= i < s1.users.len() implies (#[trigger] s1.users[i]).id != u.id by {
        assert(s1.users[i].id <= s1.next_user_id);
    }
    lemma_user_by_id_push(s1.users, u);
}

/// A username is registered at most once: once `create_user` has added a
/// user, registering the same typed username again is refused with
/// `Conflict`, whatever the name and password.
pub proof fn username_registered_once(
    s1: StoreModel,
    u: UserRecord,
    username: Seq<char>,
    name2: Seq<char>,
    password2: Seq<char>,
)
    requires
        u.username@ == username_key(username),
        utf8_len(trim_spec(name2)) >= 2,
        utf8_len(username_key(username)) >= 3,
        utf8_len(password2) >= 6,
    ensures
        new_user_check(s1.with_user(u), name2, username, password2) == Err::<(), ErrorModel>(
            ErrorModel::Conflict("username ja cadastrado"@),
        ),
{
    let s2 = s1.with_user(u);
    assert(s2.users[s1.users.len() as int] == u);
    assert(s2.username_taken(username_key(username)));
}

/// The demo user signs in with `alexandre` and `rust123`: once the demo
/// data is in, `alexandre` is ASCII and its own trimmed lower-case form, so
/// (by `ascii_key_known`) looking it up finds the demo user, and `rust123`
/// verifies against its hash, so `verify_user_password` answers `Ok` with
/// the demo user.
pub proof fn demo_user_can_sign_in(s0: StoreModel, s1: StoreModel)
    requires
        demo_seeded(s0, s1),
        password_matches("rust123"@, s1.users[0].password_hash@),
    ensures
        is_ascii_text(trim_spec("alexandre"@)),
        ascii_lowercase(trim_spec("alexandre"@)) == "alexandre"@,
        user_by_username(s1.users, "alexandre"@) == Some(s1.users[0]),
        password_matches("rust123"@, user_by_username(s1.users, "alexandre"@)->0.password_hash@),
{
    reveal_strlit("alexandre");
    let a = "alexandre"@;
    assert(a[0] == 'a');
    assert(!is_unicode_whitespace(a[0]));
    assert(trim_start_spec(a) == a);
    assert(a.last() == 'e');
    assert(trim_end_spec(a) == a);
    assert(ascii_lowercase(a) =~= a);
    assert(s1.users.drop_first().len() == 0);
}

/// Seeding is done once: after the demo data is in, the store has a user,
/// so seeding again leaves it as it is.
pub proof fn demo_seeded_once(s0: StoreModel, s1: StoreModel)
    requires
        demo_seeded(s0, s1),
    ensures
        s1.users.len() != 0,
{
}

} // verus!

//! The records the wallet keeps, the views shown on the dashboard, and the
//! forms it receives.
use vstd::prelude::*;

verus! {

/// A registered user. `password_hash` is a PHC string.
#[derive(Debug)]
pub struct UserRecord {
    pub id: i64,
    pub name: String,
    pub username: String,
    pub password_hash: String,
}

impl Clone for UserRecord {
    fn clone(&self) -> (r: Self)
        ensures
            r == *self,
    {
        UserRecord {
            id: self.id,
            name: self.name.clone(),
            username: self.username.clone(),
            password_hash: self.password_hash.clone(),
        }
    }
}

/// An asset of a user, with its current value per unit in cents.
#[derive(Debug)]
pub struct AssetRecord {
    pub id: i64,
    pub user_id: i64,
    pub name: String,
    pub unit_value_cents: i64,
}

impl Clone for AssetRecord {
    fn clone(&self) -> (r: Self)
        ensures
            r == *self,
    {
        AssetRecord {
            id: self.id,
            user_id: self.user_id,
            name: self.name.clone(),
            unit_value_cents: self.unit_value_cents,
        }
    }
}

/// A purchase of `quantity_milli` thousandths of an asset at
/// `bought_for_cents` per unit.
#[derive(Debug)]
pub struct PurchaseRecord {
    pub id: i64,
    pub asset_id: i64,
    pub quantity_milli: i64,
    pub bought_for_cents: i64,
    pub purchase_date: String,
}

impl Clone for PurchaseRecord {
    fn clone(&self) -> (r: Self)
        ensures
            r == *self,
    {
        PurchaseRecord {
            id: self.id,
            asset_id: self.asset_id,
            quantity_milli: self.quantity_milli,
            bought_for_cents: self.bought_for_cents,
            purchase_date: self.purchase_date.clone(),
        }
    }
}

/// One purchase as the dashboard shows it.
#[derive(Debug)]
pub struct PurchaseView {
    pub id: i64,
    pub purchase_date: String,
    pub quantity: String,
    pub bought_for: String,
    pub change: String,
    pub change_is_positive: bool,
}

/// One asset as the dashboard shows it, with its purchases.
#[derive(Debug)]
pub struct AssetView {
    pub id: i64,
    pub name: String,
    pub quantity: String,
    pub unit_value: String,
    pub change: String,
    pub change_is_positive: bool,
    pub purchases: Vec<PurchaseView>,
}

/// The login form.
#[derive(Debug)]
pub struct LoginForm {
    pub username: String,
    pub password: String,
}

/// The registration form.
#[derive(Debug)]
pub struct RegisterForm {
    pub name: String,
    pub username: String,
    pub password: String,
}

/// The form that adds an asset; `unit_value` is decimal text.
#[derive(Debug)]
pub struct AssetForm {
    pub name: String,
    pub unit_value: String,
}

/// The form that records a purchase; `unit_value` and `quantity` are
/// decimal text.
#[derive(Debug)]
pub struct PurchaseForm {
    pub asset_id: i64,
    pub unit_value: String,
    pub quantity: String,
}

/// The body of the API call that adds an asset.
#[derive(Debug)]
pub struct ApiCreateAsset {
    pub name: String,
    pub unit_value_cents: i64,
}

} // verus!

//! What the forms of the dashboard do to the store: the amounts typed are
//! parsed, checked, and handed to the store; an error comes back as the
//! message the page shows.
use vstd::prelude::*;

use vstd::string::StringExecFns;

use crate::errors::message_of;
use crate::models::{AssetForm, PurchaseForm};
use crate::store::{self as store, new_asset_check, new_purchase_check, MemoryStore, StoreModel};
use crate::text::trim_spec;
use crate::utils::{parse_money_to_cents, parse_quantity_to_milli, parse_scaled_spec};

verus! {

/// A positive amount parsed from a form field, if there is one.
pub open spec fn positive_amount(text: Seq<char>, w: nat, scale: int) -> Option<int> {
    match parse_scaled_spec(text, w, scale) {
        Some(v) => if v > 0 {
            Some(v)
        } else {
            None
        },
        None => None,
    }
}

/// What submitting the asset form gives: the message shown, or `Ok`.
pub open spec fn asset_form_outcome(s: StoreModel, user_id: i64, form: AssetForm) -> Result<(), Seq<char>> {
    match positive_amount(form.unit_value@, 2, 100) {
        None => Err("valor unitario invalido"@),
        Some(v) => match new_asset_check(s, user_id, form.name@, v as i64) {
            Err(e) => Err(message_of(e)),
            Ok(_) => Ok(()),
        },
    }
}

/// What submitting the purchase form gives: the message shown, or `Ok`.
pub open spec fn purchase_form_outcome(s: StoreModel, user_id: i64, form: PurchaseForm) -> Result<(), Seq<char>> {
    match positive_amount(form.unit_value@, 2, 100) {
        None => Err("valor de compra invalido"@),
        Some(bought) => match positive_amount(form.quantity@, 3, 1000) {
            None => Err("quantidade invalida"@),
            Some(quantity) => match new_purchase_check(s, user_id, form.asset_id, quantity as i64, bought as i64) {
                Err(e) => Err(message_of(e)),
                Ok(_) => Ok(()),
            },
        },
    }
}

/// The asset form is accepted exactly when its value reads as a positive
/// number of cents and the store accepts an asset of that name and value;
/// a value that does not read as a positive amount is answered "valor
/// unitario invalido".
pub proof fn asset_form_accepted(s: StoreModel, user_id: i64, form: AssetForm)
    ensures
        asset_form_outcome(s, user_id, form) is Ok <==> (parse_scaled_spec(form.unit_value@, 2, 100) matches Some(v)
            && v > 0 && new_asset_check(s, user_id, form.name@, v as i64) is Ok),
        !(parse_scaled_spec(form.unit_value@, 2, 100) matches Some(v) && v > 0) ==> asset_form_outcome(
            s,
            user_id,
            form,
        ) == Err::<(), Seq<char>>("valor unitario invalido"@),
{
}

/// The purchase form is accepted exactly when its price reads as a
/// positive number of cents, its quantity as a positive number of
/// thousandths, and the store accepts that purchase.
pub proof fn purchase_form_accepted(s: StoreModel, user_id: i64, form: PurchaseForm)
    ensures
        purchase_form_outcome(s, user_id, form) is Ok <==> (parse_scaled_spec(form.unit_value@, 2, 100) matches Some(b)
            && (b > 0 && (parse_scaled_spec(form.quantity@, 3, 1000) matches Some(q) && (q > 0 && new_purchase_check(
            s,
            user_id,
            form.asset_id,
            q as i64,
            b as i64,
        ) is Ok)))),
        !(parse_scaled_spec(form.unit_value@, 2, 100) matches Some(b) && b > 0) ==> purchase_form_outcome(
            s,
            user_id,
            form,
        ) == Err::<(), Seq<char>>("valor de compra invalido"@),
{
}

/// Checks the asset form without changing the store: on success, the value
/// per unit typed, in cents; else the message the page shows.
pub fn asset_form_check(store: &MemoryStore, user_id: i64, form: &AssetForm) -> (r: Result<i64, String>)
    ensures
        match asset_form_outcome(store@, user_id, *form) {
            Err(m) => r matches Err(x) && x@ == m,
            Ok(_) => r matches Ok(v) && v == positive_amount(form.unit_value@, 2, 100)->0,
        },
{
    let unit_value = match parse_money_to_cents(form.unit_value.as_str()) {
        Some(v) => if v > 0 {
            v
        } else {
            return Err(String::from_str("valor unitario invalido"));
        },
        None => {
            return Err(String::from_str("valor unitario invalido"));
        },
    };
    match store::asset_check(store, user_id, form.name.as_str(), unit_value) {
        Ok(_) => Ok(unit_value),
        Err(e) => Err(e.message()),
    }
}

/// Adds the asset of the form for a signed-in user; a refused form leaves
/// the store as it was.
pub fn create_asset(store: &mut MemoryStore, user_id: i64, form: &AssetForm) -> (r: Result<(), String>)
    requires
        old(store)@.wf(),
        asset_form_outcome(old(store)@, user_id, *form) is Ok ==> old(store)@.next_asset_id < i64::MAX,
    ensures
        final(store)@.wf(),
        match asset_form_outcome(old(store)@, user_id, *form) {
            Err(m) => r matches Err(x) && x@ == m && final(store)@ == old(store)@,
            Ok(_) => r is Ok && exists|a| #[trigger] final(store)@ == old(store)@.with_asset(a)
                && a.id == old(store)@.next_asset_id + 1 && a.user_id == user_id && a.name@
                == trim_spec(form.name@) && a.unit_value_cents == positive_amount(
                form.unit_value@,
                2,
                100,
            )->0,
        },
{
    let unit_value = match asset_form_check(store, user_id, form) {
        Ok(v) => v,
        Err(m) => {
            return Err(m);
        },
    };
    match store::create_asset(store, user_id, form.name.as_str(), unit_value) {
        Ok(_) => Ok(()),
        Err(e) => Err(e.message()),
    }
}

/// Checks the purchase form without changing the store: on success, the
/// price paid per unit in cents and the quantity in thousandths; else the
/// message the page shows.
pub fn purchase_form_check(store: &MemoryStore, user_id: i64, form: &PurchaseForm) -> (r: Result<
    (i64, i64),
    String,
>)
    ensures
        match purchase_form_outcome(store@, user_id, *form) {
            Err(m) => r matches Err(x) && x@ == m,
            Ok(_) => r matches Ok((bought, quantity)) && bought == positive_amount(form.unit_value@, 2, 100)->0
                && quantity == positive_amount(form.quantity@, 3, 1000)->0,
        },
{
    let bought_for = match parse_money_to_cents(form.unit_value.as_str()) {
        Some(v) => if v > 0 {
            v
        } else {
            return Err(String::from_str("valor de compra invalido"));
        },
        None => {
            return Err(String::from_str("valor de compra invalido"));
        },
    };
    let quantity = match parse_quantity_to_milli(form.quantity.as_str()) {
        Some(v) => if v > 0 {
            v
        } else {
            return Err(String::from_str("quantidade invalida"));
        },
        None => {
            return Err(String::from_str("quantidade invalida"));
        },
    };
    match store::purchase_check(store, user_id, form.asset_id, quantity, bought_for) {
        Ok(()) => Ok((bought_for, quantity)),
        Err(e) => Err(e.message()),
    }
}

/// Records the purchase of the form for a signed-in user; a refused form
/// leaves the store as it was.
pub fn create_purchase(store: &mut MemoryStore, user_id: i64, form: &PurchaseForm) -> (r: Result<(), String>)
    requires
        old(store)@.wf(),
        purchase_form_outcome(old(store)@, user_id, *form) is Ok ==> old(store)@.next_purchase_id
            < i64::MAX,
    ensures
        final(store)@.wf(),
        match purchase_form_outcome(old(store)@, user_id, *form) {
            Err(m) => r matches Err(x) && x@ == m && final(store)@ == old(store)@,
            Ok(_) => r is Ok && exists|p| #[trigger] final(store)@ == old(store)@.with_purchase(p)
                && p.id == old(store)@.next_purchase_id + 1 && p.asset_id == form.asset_id
                && p.bought_for_cents == positive_amount(form.unit_value@, 2, 100)->0
                && p.quantity_milli == positive_amount(form.quantity@, 3, 1000)->0
                && p.purchase_date@ == "agora"@,
        },
{
    let (bought_for, quantity) = match purchase_form_check(store, user_id, form) {
        Ok(checked) => checked,
        Err(m) => {
            return Err(m);
        },
    };
    match store::create_purchase(store, user_id, form.asset_id, quantity, bought_for) {
        Ok(()) => Ok(()),
        Err(e) => Err(e.message()),
    }
}

} // verus!

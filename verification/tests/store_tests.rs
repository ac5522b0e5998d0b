use ohiro_wallet::errors::AppError;
use ohiro_wallet::models::{AssetForm, PurchaseForm};
use ohiro_wallet::store::{
    asset_check, create_asset, create_purchase, create_user, find_user_by_id, find_user_by_username,
    portfolio_fits, portfolio_for_user, purchase_check, user_check, verify_user_password, MemoryStore,
};
use ohiro_wallet::web;

fn invalid_input(r: AppError) -> String {
    match r {
        AppError::InvalidInput(m) => m,
        other => panic!("unexpected error {:?}", other),
    }
}

#[test]
fn register_then_sign_in() {
    let mut store = MemoryStore::default();
    let user = create_user(&mut store, "  Maria Silva ", "  MariaS ", "segredo1").unwrap();
    assert_eq!(user.id, 1);
    assert_eq!(user.name, "Maria Silva");
    assert_eq!(user.username, "marias");
    assert_ne!(user.password_hash, "segredo1");
    let found = find_user_by_username(&store, "MARIAS").unwrap();
    assert_eq!(found.id, 1);
    let again = verify_user_password(&store, " MariaS", "segredo1").unwrap();
    assert_eq!(again.id, 1);
    assert!(matches!(verify_user_password(&store, "marias", "errado12"), Err(AppError::Unauthorized)));
    assert!(matches!(verify_user_password(&store, "ninguem", "segredo1"), Err(AppError::Unauthorized)));
    assert_eq!(find_user_by_id(&store, 1).unwrap().username, "marias");
    assert!(find_user_by_id(&store, 2).is_none());
}

#[test]
fn register_refusals() {
    let mut store = MemoryStore::default();
    assert_eq!(
        invalid_input(create_user(&mut store, " A ", "maria", "segredo1").unwrap_err()),
        "nome deve ter pelo menos 2 caracteres"
    );
    // two bytes in UTF-8 is long enough
    assert!(create_user(&mut store, "é", "maria", "segredo1").is_ok());
    assert_eq!(
        invalid_input(create_user(&mut store, "Ana", "ab", "segredo1").unwrap_err()),
        "username deve ter pelo menos 3 caracteres"
    );
    assert_eq!(
        invalid_input(create_user(&mut store, "Ana", "anab", "12345").unwrap_err()),
        "senha deve ter pelo menos 6 caracteres"
    );
    match create_user(&mut store, "Outra Maria", " MARIA ", "segredo2") {
        Err(AppError::Conflict(m)) => assert_eq!(m, "username ja cadastrado"),
        other => panic!("unexpected {:?}", other),
    }
    let next = create_user(&mut store, "Ana", "anab", "segredo3").unwrap();
    assert_eq!(next.id, 2);
}

#[test]
fn assets_and_purchases() {
    let mut store = MemoryStore::default();
    let a = create_asset(&mut store, 7, "  Bitcoin ", 1000).unwrap();
    assert_eq!(a.id, 1);
    assert_eq!(a.name, "Bitcoin");
    assert_eq!(a.user_id, 7);
    match create_asset(&mut store, 7, "BITCOIN", 5) {
        Err(AppError::Conflict(m)) => assert_eq!(m, "ativo ja cadastrado para esse usuario"),
        other => panic!("unexpected {:?}", other),
    }
    assert_eq!(create_asset(&mut store, 8, "bitcoin", 5).unwrap().id, 2);
    assert_eq!(invalid_input(create_asset(&mut store, 7, "   ", 5).unwrap_err()), "nome do ativo nao pode ser vazio");
    assert_eq!(invalid_input(create_asset(&mut store, 7, "Ouro", 0).unwrap_err()), "valor unitario deve ser positivo");

    assert!(create_purchase(&mut store, 7, 1, 5000, 1500).is_ok());
    assert!(matches!(create_purchase(&mut store, 7, 2, 5000, 1500), Err(AppError::NotFound)));
    assert!(matches!(create_purchase(&mut store, 7, 99, 5000, 1500), Err(AppError::NotFound)));
    assert_eq!(invalid_input(create_purchase(&mut store, 7, 1, 0, 1500).unwrap_err()), "quantidade deve ser positiva");
    assert_eq!(invalid_input(create_purchase(&mut store, 7, 1, 10, -1).unwrap_err()), "valor de compra deve ser positivo");

    let view = portfolio_for_user(&store, 7);
    assert_eq!(view.len(), 1);
    assert_eq!(view[0].purchases.len(), 1);
    assert_eq!(view[0].purchases[0].purchase_date, "agora");
    assert_eq!(view[0].purchases[0].change, "-25");
    assert!(!view[0].purchases[0].change_is_positive);
    assert_eq!(portfolio_for_user(&store, 8).len(), 1);
    assert!(portfolio_for_user(&store, 9).is_empty());
}

#[test]
fn demo_portfolio() {
    let mut store = MemoryStore::default();
    store.seed_demo();
    let user = verify_user_password(&store, "alexandre", "rust123").unwrap();
    assert_eq!(user.name, "Alexandre");
    assert!(portfolio_fits(&store, user.id));
    let view = portfolio_for_user(&store, user.id);
    assert_eq!(view.len(), 3);

    assert_eq!(view[0].name, "Bitcoin");
    assert_eq!(view[0].quantity, "15");
    assert_eq!(view[0].unit_value, "$ 10");
    assert_eq!(view[0].change, "+25");
    assert!(view[0].change_is_positive);
    assert_eq!(view[0].purchases.len(), 2);
    assert_eq!(view[0].purchases[0].quantity, "5");
    assert_eq!(view[0].purchases[0].bought_for, "$ 15");
    assert_eq!(view[0].purchases[0].change, "-25");
    assert_eq!(view[0].purchases[1].change, "+50");
    assert_eq!(view[0].purchases[1].purchase_date, "2026-03-22 15:24");

    assert_eq!(view[1].name, "Real");
    assert_eq!(view[1].quantity, "350");
    assert_eq!(view[1].unit_value, "$ 1");
    assert_eq!(view[1].change, "+62.50");
    assert_eq!(view[1].purchases[1].bought_for, "$ 0.75");

    assert_eq!(view[2].name, "Dolar");
    assert_eq!(view[2].unit_value, "$ 5.25");
    assert_eq!(view[2].change, "-125");
    assert!(!view[2].change_is_positive);
    assert_eq!(view[2].purchases[0].id, 5);
}

#[test]
fn seeding_twice_changes_nothing() {
    let mut store = MemoryStore::default();
    store.seed_demo();
    store.seed_demo();
    let view = portfolio_for_user(&store, 1);
    assert_eq!(view.len(), 3);
    assert!(find_user_by_id(&store, 2).is_none());
}

#[test]
fn portfolio_overflow_is_detected() {
    let mut store = MemoryStore::default();
    create_asset(&mut store, 1, "Ouro", 1).unwrap();
    create_purchase(&mut store, 1, 1, i64::MAX, 1).unwrap();
    assert!(portfolio_fits(&store, 1));
    create_purchase(&mut store, 1, 1, i64::MAX, 1).unwrap();
    assert!(!portfolio_fits(&store, 1));
    assert!(portfolio_fits(&store, 2));
}

#[test]
fn asset_form() {
    let mut store = MemoryStore::default();
    let bad = AssetForm { name: "Ouro".to_string(), unit_value: "0".to_string() };
    assert_eq!(web::create_asset(&mut store, 1, &bad).unwrap_err(), "valor unitario invalido");
    let bad = AssetForm { name: "Ouro".to_string(), unit_value: "x".to_string() };
    assert_eq!(web::create_asset(&mut store, 1, &bad).unwrap_err(), "valor unitario invalido");
    let good = AssetForm { name: "Ouro".to_string(), unit_value: "300,50".to_string() };
    assert!(web::create_asset(&mut store, 1, &good).is_ok());
    assert_eq!(web::create_asset(&mut store, 1, &good).unwrap_err(), "conflito: ativo ja cadastrado para esse usuario");
    let view = portfolio_for_user(&store, 1);
    assert_eq!(view[0].unit_value, "$ 300.50");
    let empty = AssetForm { name: " ".to_string(), unit_value: "1".to_string() };
    assert_eq!(web::create_asset(&mut store, 1, &empty).unwrap_err(), "entrada invalida: nome do ativo nao pode ser vazio");
}

#[test]
fn purchase_form() {
    let mut store = MemoryStore::default();
    create_asset(&mut store, 1, "Ouro", 30000).unwrap();
    let form = |v: &str, q: &str, id: i64| PurchaseForm { asset_id: id, unit_value: v.to_string(), quantity: q.to_string() };
    assert_eq!(web::create_purchase(&mut store, 1, &form("0", "1", 1)).unwrap_err(), "valor de compra invalido");
    assert_eq!(web::create_purchase(&mut store, 1, &form("10", "0", 1)).unwrap_err(), "quantidade invalida");
    assert_eq!(web::create_purchase(&mut store, 1, &form("10", "-1", 1)).unwrap_err(), "quantidade invalida");
    assert_eq!(web::create_purchase(&mut store, 2, &form("10", "1", 1)).unwrap_err(), "registro nao encontrado");
    assert!(web::create_purchase(&mut store, 1, &form("250", "1,5", 1)).is_ok());
    let view = portfolio_for_user(&store, 1);
    assert_eq!(view[0].quantity, "1.5");
    assert_eq!(view[0].purchases[0].bought_for, "$ 250");
    assert_eq!(view[0].change, "+75");
}

#[test]
fn checks_change_nothing() {
    let mut store = MemoryStore::default();
    let (name, username) = user_check(&store, "  Joao Lima ", " JoaoL ", "segredo1").unwrap();
    assert_eq!(name, "Joao Lima");
    assert_eq!(username, "joaol");
    assert!(find_user_by_username(&store, "joaol").is_none());
    create_user(&mut store, "Joao Lima", "joaol", "segredo1").unwrap();
    match user_check(&store, "Outro", "JOAOL", "segredo2") {
        Err(AppError::Conflict(m)) => assert_eq!(m, "username ja cadastrado"),
        other => panic!("unexpected {:?}", other),
    }
    assert_eq!(
        invalid_input(user_check(&store, "Outro", "jo", "segredo2").unwrap_err()),
        "username deve ter pelo menos 3 caracteres"
    );
    assert_eq!(asset_check(&store, 1, "  Ouro ", 10).unwrap(), "Ouro");
    assert_eq!(
        invalid_input(asset_check(&store, 1, "Ouro", 0).unwrap_err()),
        "valor unitario deve ser positivo"
    );
    assert!(matches!(purchase_check(&store, 1, 1, 1000, 10), Err(AppError::NotFound)));
    create_asset(&mut store, 1, "Ouro", 10).unwrap();
    assert!(purchase_check(&store, 1, 1, 1000, 10).is_ok());
    assert!(matches!(asset_check(&store, 1, "OURO", 5), Err(AppError::Conflict(_))));
    assert_eq!(portfolio_for_user(&store, 1)[0].purchases.len(), 0);
}

#[test]
fn lookup_by_any_spelling() {
    let mut store = MemoryStore::default();
    let user = create_user(&mut store, "Joana", "joana", "segredo1").unwrap();
    for spelling in ["joana", "JOANA", " Joana ", "\tjOaNa\n"] {
        assert_eq!(find_user_by_username(&store, spelling).unwrap().id, user.id);
    }
    assert!(find_user_by_username(&store, "joan").is_none());
    assert!(find_user_by_username(&store, "jo ana").is_none());
}

#[test]
fn demo_sign_in() {
    let mut store = MemoryStore::default();
    store.seed_demo();
    let user = verify_user_password(&store, "alexandre", "rust123").unwrap();
    assert_eq!(user.name, "Alexandre");
    assert!(matches!(verify_user_password(&store, "alexandre", "rust124"), Err(AppError::Unauthorized)));
}

#[test]
fn form_checks() {
    let mut store = MemoryStore::default();
    let form = AssetForm { name: "Ouro".to_string(), unit_value: "12,5".to_string() };
    assert_eq!(web::asset_form_check(&store, 1, &form).unwrap(), 1250);
    web::create_asset(&mut store, 1, &form).unwrap();
    assert_eq!(
        web::asset_form_check(&store, 1, &form).unwrap_err(),
        "conflito: ativo ja cadastrado para esse usuario"
    );
    let purchase = PurchaseForm { asset_id: 1, unit_value: "3".to_string(), quantity: "0.25".to_string() };
    assert_eq!(web::purchase_form_check(&store, 1, &purchase).unwrap(), (300, 250));
    let other = PurchaseForm { asset_id: 1, unit_value: "3".to_string(), quantity: "0.25".to_string() };
    assert_eq!(web::purchase_form_check(&store, 2, &other).unwrap_err(), "registro nao encontrado");
}

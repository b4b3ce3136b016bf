use pos_core::models::{Date, Expense, Product, StoreError, User};
use pos_core::rational::Rat;
use pos_core::store::Store;

fn whole(n: i64) -> Rat {
    Rat { num: n, den: 1 }
}

fn date(year: u16, month: u8, day: u8) -> Date {
    Date { year, month, day }
}

fn mk_user(name: &str, pw: &str, role: &str) -> User {
    User {
        id: 0,
        username: name.to_owned(),
        password: Some(pw.to_owned()),
        role: role.to_owned(),
        created_at: None,
    }
}

#[test]
fn setup_and_login() {
    let mut store = Store::new();
    assert!(pos_core::admin::check_setup_required(&store));
    let admin = pos_core::admin::setup_admin(
        &mut store,
        "root".to_owned(),
        "pw-root".to_owned(),
    )
    .unwrap();
    assert_eq!(admin.role, "super_admin");
    assert!(admin.password.is_none());
    assert!(!pos_core::admin::check_setup_required(&store));
    // A second setup is refused.
    assert!(matches!(
        pos_core::admin::setup_admin(&mut store, "x".to_owned(), "y".to_owned()),
        Err(StoreError::Validation)
    ));
    let u = pos_core::admin::login(
        &store,
        "root".to_owned(),
        "pw-root".to_owned(),
    )
    .unwrap();
    assert_eq!(u.username, "root");
    assert!(u.password.is_none());
    assert!(matches!(
        pos_core::admin::login(&store, "root".to_owned(), "wrong".to_owned()),
        Err(StoreError::NotFound)
    ));
}

#[test]
fn passwords_and_roles_change_only_with_authority() {
    let mut store = Store::new();
    pos_core::admin::create_user(&mut store, mk_user("ada", "pw1", "worker")).unwrap();
    let uid = store.users[0].id;
    assert_eq!(
        pos_core::admin::change_password(
            &mut store,
            uid,
            "bad".to_owned(),
            "pw2".to_owned(),
            false,
        ),
        Err(StoreError::Validation)
    );
    pos_core::admin::change_password(&mut store, uid, "pw1".to_owned(), "pw2".to_owned(), false)
        .unwrap();
    assert!(pos_core::admin::login(&store, "ada".to_owned(), "pw2".to_owned()).is_ok());
    pos_core::admin::update_user_role(&mut store, uid, "admin".to_owned()).unwrap();
    assert_eq!(pos_core::admin::get_users(&store)[0].role, "admin");
    pos_core::admin::delete_user(&mut store, uid).unwrap();
    assert_eq!(store.users.len(), 0);
}

#[test]
fn settings_upsert_replaces_by_key() {
    let mut store = Store::new();
    pos_core::admin::update_settings(
        &mut store,
        vec![
            pos_core::models::Setting { key: "a".to_owned(), value: "1".to_owned() },
            pos_core::models::Setting { key: "b".to_owned(), value: "2".to_owned() },
        ],
    )
    .unwrap();
    pos_core::admin::update_settings(
        &mut store,
        vec![pos_core::models::Setting { key: "a".to_owned(), value: "3".to_owned() }],
    )
    .unwrap();
    let all = pos_core::admin::get_settings(&store);
    assert_eq!(all.len(), 2);
    assert_eq!(all[0].key, "a");
    assert_eq!(all[0].value, "3");
    assert_eq!(all[1].value, "2");
}

#[test]
fn expenses_filter_by_date_range() {
    let mut store = Store::new();
    for (d, amount) in [
        (date(2024, 1, 10), 5),
        (date(2024, 2, 10), 7),
        (date(2024, 3, 10), 9),
    ] {
        pos_core::admin::create_expense(
            &mut store,
            Expense {
                id: 0,
                expense_date: Some(d),
                category: "rent".to_owned(),
                amount: whole(amount),
                notes: None,
                created_at: None,
            },
        )
        .unwrap();
    }
    let all = pos_core::admin::get_expenses(&store, None, None);
    assert_eq!(all.len(), 3);
    // Newest first.
    assert!(all[0].amount.same_value(whole(9)));
    assert!(all[2].amount.same_value(whole(5)));
    let some = pos_core::admin::get_expenses(
        &store,
        Some(date(2024, 2, 1)),
        Some(date(2024, 2, 28)),
    );
    assert_eq!(some.len(), 1);
    assert!(some[0].amount.same_value(whole(7)));
    let eid = all[0].id;
    pos_core::admin::update_expense(
        &mut store,
        eid,
        Expense {
            id: 0,
            expense_date: Some(date(2024, 3, 11)),
            category: "power".to_owned(),
            amount: whole(11),
            notes: None,
            created_at: None,
        },
    )
    .unwrap();
    assert_eq!(store.expenses[2].category, "power");
    pos_core::admin::delete_expense(&mut store, eid).unwrap();
    assert_eq!(store.expenses.len(), 2);
}

#[test]
fn activity_log_pages_newest_first() {
    let mut store = Store::new();
    for k in 0..5i64 {
        pos_core::admin::log_activity(
            &mut store,
            None,
            "root".to_owned(),
            "CREATE".to_owned(),
            "Product".to_owned(),
            Some(k),
            format!("step {}", k),
            Some(format!("2024-03-0{} 12:00:00", k + 1)),
        )
        .unwrap();
    }
    assert_eq!(store.activity_logs[0].created_at.as_deref(), Some("2024-03-01 12:00:00"));
    let page = pos_core::admin::get_activity_logs(&store, 2, 1);
    assert_eq!(page.len(), 2);
    assert_eq!(page[0].entity_id, Some(3));
    assert_eq!(page[1].entity_id, Some(2));
    let tail = pos_core::admin::get_activity_logs(&store, 10, 4);
    assert_eq!(tail.len(), 1);
    assert_eq!(tail[0].entity_id, Some(0));
}

#[test]
fn conversations_and_messages() {
    let mut store = Store::new();
    let c1 = pos_core::admin::create_conversation(&mut store, "first".to_owned()).unwrap();
    let c2 = pos_core::admin::create_conversation(&mut store, "second".to_owned()).unwrap();
    pos_core::admin::add_message(&mut store, c1, "user".to_owned(), "hello".to_owned()).unwrap();
    let reply =
        pos_core::admin::add_message(&mut store, c1, "ai".to_owned(), "hi there".to_owned())
            .unwrap();
    assert_eq!(reply.sender, "ai");
    let msgs = pos_core::admin::get_messages(&store, c1);
    assert_eq!(msgs.len(), 2);
    assert_eq!(msgs[0].content, "hello");
    assert_eq!(msgs[1].content, "hi there");
    let convs = pos_core::admin::get_conversations(&store);
    assert_eq!(convs[0].id, c2);
    assert_eq!(convs[1].id, c1);
    pos_core::admin::delete_conversation(&mut store, c1).unwrap();
    assert_eq!(store.conversations.len(), 1);
}

fn mk_product(name: &str) -> Product {
    Product {
        id: 0,
        product_name: name.to_owned(),
        product_code: None,
        category: None,
        brand: None,
        buying_price: whole(0),
        default_selling_price: whole(0),
        stock_quantity: whole(0),
        unit: None,
        tax_percentage: whole(0),
        original_price: whole(0),
        profit_percentage: whole(0),
        facebook_link: None,
        product_link: None,
        created_at: None,
        updated_at: None,
        is_deleted: 0,
        images: None,
    }
}

#[test]
fn products_soft_delete_and_images() {
    let mut store = Store::new();
    let a = pos_core::catalog::create_product(
        &mut store,
        mk_product("a"),
        vec!["/img/a1.png".to_owned(), "/img/a2.png".to_owned()],
    )
    .unwrap();
    let b = pos_core::catalog::create_product(&mut store, mk_product("b"), Vec::new()).unwrap();
    assert_eq!(pos_core::catalog::get_product_images(&store, a).len(), 2);
    let listed = pos_core::catalog::get_products(&store);
    assert_eq!(listed.len(), 2);
    assert_eq!(listed[0].images.as_ref().unwrap()[0], "/img/a1.png");
    assert!(listed[1].images.is_none());
    pos_core::catalog::delete_product(&mut store, b).unwrap();
    let listed = pos_core::catalog::get_products(&store);
    assert_eq!(listed.len(), 1);
    assert_eq!(listed[0].id, a);
    // Revision replaces fields and the image set.
    let mut revised = mk_product("a2");
    revised.id = a;
    pos_core::catalog::update_product(&mut store, revised, vec!["/img/new.png".to_owned()])
        .unwrap();
    assert_eq!(store.products[0].product_name, "a2");
    let imgs = pos_core::catalog::get_product_images(&store, a);
    assert_eq!(imgs, vec!["/img/new.png".to_owned()]);
}

#[test]
fn cleanup_clears_the_chosen_tables() {
    let mut store = Store::new();
    let a = pos_core::catalog::create_product(&mut store, mk_product("a"), Vec::new()).unwrap();
    pos_core::admin::create_expense(
        &mut store,
        Expense {
            id: 0,
            expense_date: None,
            category: "rent".to_owned(),
            amount: whole(5),
            notes: None,
            created_at: None,
        },
    )
    .unwrap();
    pos_core::store::cleanup_database(&mut store, false, false, false, false, true);
    assert_eq!(store.expenses.len(), 0);
    assert_eq!(store.products.len(), 1);
    pos_core::store::cleanup_database(&mut store, false, false, true, false, false);
    assert_eq!(store.products.len(), 0);
    let _ = a;
}

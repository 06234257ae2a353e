use commust::cart::{
    add, add_item, find_key, find_product, product_ids, quantity_of, remove, remove_item, show,
    update, update_item, AddOutcome, CartError, CartParams, CartRemoveItemParams, CartSession,
    CartUpdateItemParams, PartialProductModel,
};
use commust::hash::{generate_hash, hash_content_of};
use commust::stock::StockError;

fn line(key: &str, id: i32, qty: i32) -> CartSession {
    CartSession { key: key.to_string(), id, qty }
}

fn shape(cart: &Vec<CartSession>) -> Vec<(String, i32, i32)> {
    cart.iter().map(|l| (l.key.clone(), l.id, l.qty)).collect()
}

fn params(id: i32, qty: i32) -> CartParams {
    CartParams { id, qty, slug: "blue-shirt-7".to_string() }
}

#[test]
fn hash_content_joins_lines_with_plus() {
    let cart = vec![line("a", 1, 2), line("b", 3, 4)];
    assert_eq!(hash_content_of(&cart, &"abc".to_string()), "abc:1*2+3*4");
}

#[test]
fn hash_content_of_empty_cart_is_the_session_id() {
    let cart: Vec<CartSession> = vec![];
    assert_eq!(hash_content_of(&cart, &"abc".to_string()), "abc");
    assert_eq!(hash_content_of(&cart, &String::new()), "");
}

#[test]
fn hash_content_shows_negative_and_zero_quantities() {
    let cart = vec![line("a", 5, -2), line("b", 6, 0)];
    assert_eq!(hash_content_of(&cart, &"sid".to_string()), "sid:5*-2+6*0");
}

#[test]
fn hash_content_holds_the_extreme_quantities() {
    let cart = vec![line("a", i32::MIN, i32::MAX)];
    assert_eq!(hash_content_of(&cart, &"s".to_string()), "s:-2147483648*2147483647");
}

#[test]
fn hash_is_the_sha256_of_the_content() {
    let cart = vec![line("a", 1, 2), line("b", 3, 4)];
    assert_eq!(
        generate_hash(&cart, &"abc".to_string()),
        "39641496cf24d12dfe599c126c4bd898e4f1c164d4e20d24416b727eb0fc159d"
    );
    let empty: Vec<CartSession> = vec![];
    assert_eq!(
        generate_hash(&empty, &"abc".to_string()),
        "ba7816bf8f01cfea414140de5dae2223b00361a396177a9cb410ff61f20015ad"
    );
    assert_eq!(
        generate_hash(&empty, &String::new()),
        "e3b0c44298fc1c149afbf4c8996fb92427ae41e4649b934ca495991b7852b855"
    );
}

#[test]
fn hash_is_the_same_for_the_same_cart() {
    let one = vec![line("k1", 7, 3)];
    let two = vec![line("k1", 7, 3)];
    let sid = "s1".to_string();
    assert_eq!(generate_hash(&one, &sid), generate_hash(&two, &sid));
    assert_eq!(generate_hash(&one, &sid), generate_hash(&one, &sid));
}

#[test]
fn hash_does_not_depend_on_the_keys() {
    let one = vec![line("k1", 7, 3)];
    let two = vec![line("another", 7, 3)];
    let sid = "s1".to_string();
    assert_eq!(generate_hash(&one, &sid), generate_hash(&two, &sid));
}

#[test]
fn hash_changes_with_a_quantity() {
    let sid = "s1".to_string();
    let three = generate_hash(&vec![line("k1", 7, 3)], &sid);
    let four = generate_hash(&vec![line("k1", 7, 4)], &sid);
    assert_eq!(three, "00b3c04deec6216e0202cef9dce5feb9028a76db604898b960c3ad2eb6733716");
    assert_eq!(four, "204d80bda0b83ec394ebd4da0499aff7d2491d9fa6125d1380fc1ab728aef4c5");
    assert_ne!(three, four);
}

#[test]
fn find_product_gives_the_first_line() {
    let cart = vec![line("a", 1, 1), line("b", 2, 5), line("c", 2, 9)];
    assert_eq!(find_product(&cart, 2), Some(1));
    assert_eq!(find_product(&cart, 3), None);
    assert_eq!(quantity_of(&cart, 2), 5);
    assert_eq!(quantity_of(&cart, 3), 0);
}

#[test]
fn find_key_gives_the_first_line() {
    let cart = vec![line("a", 1, 1), line("b", 2, 5), line("b", 3, 9)];
    assert_eq!(find_key(&cart, "b"), Some(1));
    assert_eq!(find_key(&cart, "zz"), None);
}

#[test]
fn add_item_appends_a_line_for_a_new_product() {
    let mut cart = vec![line("a", 1, 1)];
    assert_eq!(add_item(&mut cart, 2, 3, "fresh".to_string()), Ok(()));
    assert_eq!(
        shape(&cart),
        vec![("a".to_string(), 1, 1), ("fresh".to_string(), 2, 3)]
    );
}

#[test]
fn add_item_raises_the_quantity_of_a_known_product() {
    let mut cart = vec![line("a", 1, 1), line("b", 2, 2)];
    assert_eq!(add_item(&mut cart, 2, 3, "unused".to_string()), Ok(()));
    assert_eq!(shape(&cart), vec![("a".to_string(), 1, 1), ("b".to_string(), 2, 5)]);
}

#[test]
fn add_item_refuses_a_quantity_out_of_range() {
    let mut cart = vec![line("a", 1, i32::MAX)];
    assert_eq!(
        add_item(&mut cart, 1, 1, "unused".to_string()),
        Err(CartError::QuantityOverflow)
    );
    assert_eq!(shape(&cart), vec![("a".to_string(), 1, i32::MAX)]);
    let mut low = vec![line("a", 1, i32::MIN)];
    assert_eq!(
        add_item(&mut low, 1, -1, "unused".to_string()),
        Err(CartError::QuantityOverflow)
    );
    assert_eq!(shape(&low), vec![("a".to_string(), 1, i32::MIN)]);
}

#[test]
fn repeated_adds_of_one_product_keep_one_line_with_the_sum() {
    let mut cart: Vec<CartSession> = vec![line("x", 9, 1)];
    for (n, qty) in [2, 3, 5, 7].iter().enumerate() {
        assert_eq!(add_item(&mut cart, 4, *qty, format!("key{}", n)), Ok(()));
    }
    let of_product: Vec<&CartSession> = cart.iter().filter(|l| l.id == 4).collect();
    assert_eq!(of_product.len(), 1);
    assert_eq!(of_product[0].qty, 17);
    assert_eq!(of_product[0].key, "key0");
    assert_eq!(cart.len(), 2);
}

#[test]
fn add_on_backorder_is_accepted() {
    let mut cart: Vec<CartSession> = vec![];
    let outcome = add(&mut cart, &params(7, 2), Some("onbackorder"), None, Some("sid".to_string()));
    match outcome {
        AddOutcome::Added { cookies, redirect_to } => {
            assert_eq!(redirect_to, "/products/p/blue-shirt-7");
            assert_eq!(cookies.session_id, "sid");
            assert_eq!(cookies.items, "1");
            assert_eq!(cookies.cart_hash, generate_hash(&cart, &"sid".to_string()));
        }
        AddOutcome::Rejected { .. } => panic!("rejected"),
    }
    assert_eq!(cart.len(), 1);
    assert_eq!((cart[0].id, cart[0].qty), (7, 2));
    assert_eq!(cart[0].key.len(), 36);
}

#[test]
fn add_without_a_stock_status_is_accepted() {
    let mut cart: Vec<CartSession> = vec![];
    let outcome = add(&mut cart, &params(7, 2), None, None, None);
    match outcome {
        AddOutcome::Added { cookies, .. } => {
            assert_eq!(cookies.session_id.len(), 36);
            assert_eq!(cookies.cart_hash, generate_hash(&cart, &cookies.session_id));
        }
        AddOutcome::Rejected { .. } => panic!("rejected"),
    }
    assert_eq!(cart.len(), 1);
}

#[test]
fn add_with_an_unknown_status_is_accepted() {
    let mut cart: Vec<CartSession> = vec![];
    let outcome = add(&mut cart, &params(7, 2), Some("discontinued"), Some("0"), None);
    assert!(matches!(outcome, AddOutcome::Added { .. }));
}

#[test]
fn add_gives_new_lines_different_keys() {
    let mut cart: Vec<CartSession> = vec![];
    add(&mut cart, &params(1, 1), None, None, None);
    add(&mut cart, &params(2, 1), None, None, None);
    assert_eq!(cart.len(), 2);
    assert_ne!(cart[0].key, cart[1].key);
}

#[test]
fn add_out_of_stock_leaves_the_cart() {
    let mut cart = vec![line("a", 7, 1), line("b", 8, 2)];
    let outcome = add(&mut cart, &params(7, 1), Some("outofstock"), Some("0"), Some("sid".to_string()));
    match outcome {
        AddOutcome::Rejected { error, redirect_to } => {
            assert_eq!(error, CartError::Stock(StockError::OutOfStock));
            assert_eq!(error.message(), "The requested quantity is not available");
            assert_eq!(redirect_to, "/products/p/blue-shirt-7");
        }
        AddOutcome::Added { .. } => panic!("added"),
    }
    assert_eq!(shape(&cart), vec![("a".to_string(), 7, 1), ("b".to_string(), 8, 2)]);
}

#[test]
fn add_beyond_the_stock_is_rejected() {
    let mut cart = vec![line("a", 7, 2)];
    let outcome = add(&mut cart, &params(7, 2), Some("instock"), Some("3"), Some("sid".to_string()));
    match outcome {
        AddOutcome::Rejected { error, .. } => {
            assert_eq!(error, CartError::Stock(StockError::Insufficient));
        }
        AddOutcome::Added { .. } => panic!("added"),
    }
    assert_eq!(shape(&cart), vec![("a".to_string(), 7, 2)]);
}

#[test]
fn add_up_to_the_stock_is_accepted() {
    let mut cart = vec![line("a", 7, 2)];
    let outcome = add(&mut cart, &params(7, 1), Some("instock"), Some("3"), Some("sid".to_string()));
    match outcome {
        AddOutcome::Added { cookies, .. } => {
            assert_eq!(cookies.items, "1");
            assert_eq!(
                cookies.cart_hash,
                "373a7d772f3e3308e09152c06b0d0b2b60aa506fbecde7162d8c86f7e32a3145"
            );
        }
        AddOutcome::Rejected { .. } => panic!("rejected"),
    }
    assert_eq!(shape(&cart), vec![("a".to_string(), 7, 3)]);
}

#[test]
fn add_with_unreadable_stock_is_rejected() {
    for stock in [Some("many"), Some(""), Some("3.5"), Some("99999999999"), None] {
        let mut cart = vec![line("a", 7, 2)];
        let outcome = add(&mut cart, &params(7, 1), Some("instock"), stock, None);
        match outcome {
            AddOutcome::Rejected { error, .. } => {
                assert_eq!(error, CartError::Stock(StockError::CorruptStock));
            }
            AddOutcome::Added { .. } => panic!("added"),
        }
        assert_eq!(shape(&cart), vec![("a".to_string(), 7, 2)]);
    }
}

#[test]
fn add_that_overflows_the_line_is_rejected() {
    let mut cart = vec![line("a", 7, i32::MAX)];
    let outcome = add(&mut cart, &params(7, 1), Some("onbackorder"), None, None);
    match outcome {
        AddOutcome::Rejected { error, .. } => assert_eq!(error, CartError::QuantityOverflow),
        AddOutcome::Added { .. } => panic!("added"),
    }
    assert_eq!(shape(&cart), vec![("a".to_string(), 7, i32::MAX)]);
}

#[test]
fn update_sets_the_quantity_of_the_line() {
    let mut cart = vec![line("a", 1, 1), line("b", 2, 2)];
    let p = CartUpdateItemParams { key: "b".to_string(), qty: 40 };
    let (cookies, redirect_to) = update(&mut cart, &p, Some("sid".to_string()));
    assert_eq!(redirect_to, "/cart");
    assert_eq!(cookies.items, "2");
    assert_eq!(cookies.session_id, "sid");
    assert_eq!(cookies.cart_hash, generate_hash(&cart, &"sid".to_string()));
    assert_eq!(shape(&cart), vec![("a".to_string(), 1, 1), ("b".to_string(), 2, 40)]);
}

#[test]
fn update_keeps_a_line_with_quantity_zero_or_less() {
    let mut cart = vec![line("a", 1, 1)];
    update_item(&mut cart, "a", 0);
    assert_eq!(shape(&cart), vec![("a".to_string(), 1, 0)]);
    update_item(&mut cart, "a", -4);
    assert_eq!(shape(&cart), vec![("a".to_string(), 1, -4)]);
}

#[test]
fn update_of_an_unknown_key_changes_nothing() {
    let mut cart = vec![line("a", 1, 1)];
    update_item(&mut cart, "nope", 5);
    assert_eq!(shape(&cart), vec![("a".to_string(), 1, 1)]);
}

#[test]
fn remove_takes_the_line_out() {
    let mut cart = vec![line("a", 1, 1), line("b", 2, 2), line("c", 3, 3)];
    let p = CartRemoveItemParams { key: "b".to_string() };
    let (cookies, redirect_to) = remove(&mut cart, &p, Some("sid".to_string()));
    assert_eq!(redirect_to, "/cart");
    assert_eq!(cookies.items, "2");
    assert_eq!(cookies.cart_hash, generate_hash(&cart, &"sid".to_string()));
    assert_eq!(shape(&cart), vec![("a".to_string(), 1, 1), ("c".to_string(), 3, 3)]);
}

#[test]
fn remove_of_an_unknown_key_changes_nothing() {
    let mut cart = vec![line("a", 1, 1), line("b", 2, 2)];
    let before = generate_hash(&cart, &"sid".to_string());
    let p = CartRemoveItemParams { key: "nope".to_string() };
    let (cookies, _) = remove(&mut cart, &p, Some("sid".to_string()));
    assert_eq!(shape(&cart), vec![("a".to_string(), 1, 1), ("b".to_string(), 2, 2)]);
    assert_eq!(cookies.cart_hash, before);
    let mut empty: Vec<CartSession> = vec![];
    remove_item(&mut empty, "nope");
    assert!(empty.is_empty());
}

#[test]
fn remove_takes_every_line_with_the_key() {
    let mut cart = vec![line("a", 1, 1), line("b", 2, 2), line("a", 3, 3)];
    remove_item(&mut cart, "a");
    assert_eq!(shape(&cart), vec![("b".to_string(), 2, 2)]);
}

#[test]
fn product_ids_follow_the_lines() {
    let cart = vec![line("a", 5, 1), line("b", 2, 2)];
    assert_eq!(product_ids(&cart), vec![5, 2]);
}

#[test]
fn show_joins_products_with_lines() {
    let cart = vec![line("a", 5, 1), line("b", 2, 2)];
    let products = vec![
        PartialProductModel { id: 2, name: "Two".to_string(), slug: Some("two-2".to_string()) },
        PartialProductModel { id: 5, name: "Five".to_string(), slug: None },
    ];
    let page = show(&cart, products);
    assert_eq!(page.len(), 2);
    assert_eq!(
        (page[0].key.as_str(), page[0].id, page[0].slug.as_deref(), page[0].name.as_str(), page[0].quantity),
        ("b", 2, Some("two-2"), "Two", 2)
    );
    assert_eq!(
        (page[1].key.as_str(), page[1].id, page[1].slug.as_deref(), page[1].name.as_str(), page[1].quantity),
        ("a", 5, None, "Five", 1)
    );
}

#[test]
fn show_drops_lines_of_products_that_are_gone() {
    let cart = vec![line("a", 5, 1), line("b", 2, 2)];
    let products = vec![
        PartialProductModel { id: 2, name: "Two".to_string(), slug: None },
        PartialProductModel { id: 99, name: "Stray".to_string(), slug: None },
    ];
    let page = show(&cart, products);
    assert_eq!(page.len(), 1);
    assert_eq!(page[0].id, 2);
    assert!(show(&cart, vec![]).is_empty());
}

use commust::meta::{MetaStore, MetaWrite};
use commust::products::{
    copy_opt, empty_string_as_no_quantity, empty_string_as_none, generate_product_slug,
    product_edit_path, product_meta_writes, product_slug_source, save_product_meta,
    CorruptStock, NotANumber, Params, PartialMetaModel, Product, ProductView,
};

fn some(s: &str) -> Option<String> {
    Some(s.to_string())
}

fn params() -> Params {
    Params {
        title: "Blue Shirt".to_string(),
        excerpt: some("A shirt"),
        status: some("publish"),
        product_type: some("simple"),
        slug: None,
        _sku: None,
        _regular_price: None,
        _sale_price: None,
        _stock: None,
        attributes_names: vec![],
        attributes_values: vec![],
    }
}

fn product() -> Product {
    Product {
        id: 7,
        title: "Blue Shirt".to_string(),
        excerpt: some("A shirt"),
        status: some("publish"),
        product_type: some("simple"),
        author_id: 1,
        slug: some("blue-shirt-7"),
    }
}

fn meta(key: &str, value: &str) -> PartialMetaModel {
    PartialMetaModel { meta_key: some(key), meta_value: some(value) }
}

fn shape(writes: &Vec<MetaWrite>) -> Vec<(String, Option<String>)> {
    writes
        .iter()
        .map(|w| match w {
            MetaWrite::Upsert { key, value } => (key.clone(), Some(value.clone())),
            MetaWrite::Delete { key } => (key.clone(), None),
        })
        .collect()
}

fn entry(key: &str, value: Option<&str>) -> (String, Option<String>) {
    (key.to_string(), value.map(|v| v.to_string()))
}

#[test]
fn price_is_the_sale_price_where_there_is_one() {
    let view =
        ProductView::build(product(), &vec![meta("_regular_price", "10"), meta("_sale_price", "8")])
            .unwrap();
    assert_eq!(view.regular_price, some("10"));
    assert_eq!(view.sale_price, some("8"));
    assert_eq!(view.price, some("8"));
}

#[test]
fn price_is_the_regular_price_without_a_sale_price() {
    let view = ProductView::build(product(), &vec![meta("_regular_price", "10")]).unwrap();
    assert_eq!(view.price, some("10"));
    assert_eq!(view.sale_price, None);
}

#[test]
fn price_is_absent_without_prices() {
    let view = ProductView::build(product(), &vec![meta("_sku", "A-1")]).unwrap();
    assert_eq!(view.price, None);
    assert_eq!(view.regular_price, None);
    assert_eq!(view.sale_price, None);
    assert_eq!(view.sku, some("A-1"));
}

#[test]
fn build_carries_the_product_over() {
    let view = ProductView::build(product(), &vec![]).unwrap();
    assert_eq!(view.id, 7);
    assert_eq!(view.name, "Blue Shirt");
    assert_eq!(view.slug, "blue-shirt-7");
    assert_eq!(view.excerpt, "A shirt");
    assert_eq!(view.status, "publish");
    assert_eq!(view.product_type, "simple");
    assert_eq!(view.stock, None);
    assert_eq!(view.stock_status, "");
    assert!(view.attributes.is_empty());
}

#[test]
fn build_fills_missing_fields_with_empty_text() {
    let bare = Product {
        id: 1,
        title: "T".to_string(),
        excerpt: None,
        status: None,
        product_type: None,
        author_id: 1,
        slug: None,
    };
    let view = ProductView::build(bare, &vec![]).unwrap();
    assert_eq!(
        (view.slug.as_str(), view.excerpt.as_str(), view.status.as_str(), view.product_type.as_str()),
        ("", "", "", "")
    );
}

#[test]
fn build_reads_the_stock() {
    let view = ProductView::build(
        product(),
        &vec![meta("_stock", "5"), meta("_stock_status", "instock"), meta("_manage_stock", "true")],
    )
    .unwrap();
    assert_eq!(view.stock, Some(5));
    assert_eq!(view.stock_status, "instock");
}

#[test]
fn build_reports_a_corrupt_stock() {
    for bad in ["", "five", "5.5", "99999999999"] {
        let r = ProductView::build(product(), &vec![meta("_stock", bad)]);
        assert_eq!(r.err(), Some(CorruptStock), "{:?}", bad);
    }
}

#[test]
fn build_takes_the_last_entry_of_a_key() {
    let view = ProductView::build(
        product(),
        &vec![meta("_sku", "old"), meta("_stock", "bad"), meta("_sku", "new"), meta("_stock", "2")],
    )
    .unwrap();
    assert_eq!(view.sku, some("new"));
    assert_eq!(view.stock, Some(2));
}

#[test]
fn build_passes_over_entries_without_key_or_value() {
    let view = ProductView::build(
        product(),
        &vec![
            meta("_sku", "A-1"),
            PartialMetaModel { meta_key: some("_sku"), meta_value: None },
            PartialMetaModel { meta_key: None, meta_value: some("x") },
            meta("color", "red"),
        ],
    )
    .unwrap();
    assert_eq!(view.sku, some("A-1"));
}

#[test]
fn build_reads_the_attributes() {
    let text = r#"[{"is_taxonomy":false,"is_variation":false,"is_visible":true,"name":"Color","position":0,"slug":"color","value":["red","blue"]}]"#;
    let view = ProductView::build(product(), &vec![meta("_product_attributes", text)]).unwrap();
    assert_eq!(view.attributes.len(), 1);
    assert_eq!(view.attributes[0].name, "Color");
    assert_eq!(view.attributes[0].options, vec!["red", "blue"]);
}

#[test]
fn build_takes_corrupt_attributes_as_none() {
    let view =
        ProductView::build(product(), &vec![meta("_product_attributes", "[{\"name\":")]).unwrap();
    assert!(view.attributes.is_empty());
}

#[test]
fn default_view_is_a_simple_draft() {
    let view = ProductView::default();
    assert_eq!(view.id, 0);
    assert_eq!(view.name, "");
    assert_eq!(view.slug, "");
    assert_eq!(view.product_type, "simple");
    assert_eq!(view.excerpt, "");
    assert_eq!(view.status, "draft");
    assert_eq!(view.sku, None);
    assert_eq!(view.regular_price, None);
    assert_eq!(view.sale_price, None);
    assert_eq!(view.price, None);
    assert_eq!(view.stock, None);
    assert_eq!(view.stock_status, "");
    assert!(view.attributes.is_empty());
}

#[test]
fn writes_of_a_bare_form_clear_stock_and_attributes() {
    assert_eq!(
        shape(&product_meta_writes(&params())),
        vec![
            entry("_stock", None),
            entry("_manage_stock", Some("false")),
            entry("_stock_status", Some("onbackorder")),
            entry("_product_attributes", None),
        ]
    );
}

#[test]
fn writes_of_a_full_form() {
    let mut p = params();
    p._regular_price = some("10");
    p._sale_price = some("8");
    p._sku = some("A-1");
    p._stock = Some(5);
    p.attributes_names = vec!["Color".to_string()];
    p.attributes_values = vec![vec!["red".to_string(), "blue".to_string()]];
    assert_eq!(
        shape(&product_meta_writes(&p)),
        vec![
            entry("_regular_price", Some("10")),
            entry("_sale_price", Some("8")),
            entry("_sku", Some("A-1")),
            entry("_stock", Some("5")),
            entry("_stock_status", Some("instock")),
            entry("_manage_stock", Some("true")),
            entry(
                "_product_attributes",
                Some("[{\"is_taxonomy\":false,\"is_variation\":false,\"is_visible\":true,\"name\":\"Color\",\"position\":0,\"slug\":\"color\",\"value\":[\"red\",\"blue\"]}]")
            ),
        ]
    );
}

#[test]
fn writes_remove_a_malformed_attribute_list() {
    let mut p = params();
    p.attributes_names = vec!["Color".to_string(), "Size".to_string()];
    p.attributes_values = vec![vec!["red".to_string()]];
    let writes = shape(&product_meta_writes(&p));
    assert_eq!(writes.last(), Some(&entry("_product_attributes", None)));
}

#[test]
fn saving_then_building_gives_the_form_back() {
    let mut store = MetaStore::new();
    store.upsert(7, "_stock", "1".to_string());
    store.upsert(7, "_product_attributes", "[]".to_string());
    let mut p = params();
    p._regular_price = some("10");
    p._sale_price = some("8");
    p._stock = Some(0);
    p.attributes_names = vec!["Color".to_string(), "Size".to_string()];
    p.attributes_values =
        vec![vec!["red".to_string()], vec!["S".to_string(), "M".to_string()]];
    let writes = save_product_meta(&mut store, 7, &p);
    assert_eq!(writes.len(), 6);
    let keys = ["_regular_price", "_sale_price", "_sku", "_stock", "_stock_status", "_product_attributes"];
    let entries: Vec<PartialMetaModel> = keys
        .iter()
        .filter_map(|k| store.get(7, k).map(|v| meta(k, v)))
        .collect();
    let view = ProductView::build(product(), &entries).unwrap();
    assert_eq!(view.price, some("8"));
    assert_eq!(view.sku, None);
    assert_eq!(view.stock, Some(0));
    assert_eq!(view.stock_status, "outofstock");
    assert_eq!(store.get(7, "_manage_stock").cloned(), some("true"));
    assert_eq!(view.attributes.len(), 2);
    assert_eq!(view.attributes[1].name, "Size");
    assert_eq!(view.attributes[1].slug, "size");
    assert_eq!(view.attributes[1].position, 1);
    assert_eq!(view.attributes[1].options, vec!["S", "M"]);
}

#[test]
fn saving_a_bare_form_clears_the_stock() {
    let mut store = MetaStore::new();
    store.upsert(7, "_stock", "1".to_string());
    store.upsert(7, "_sku", "keep".to_string());
    store.upsert(7, "_product_attributes", "[]".to_string());
    save_product_meta(&mut store, 7, &params());
    assert_eq!(store.get(7, "_stock"), None);
    assert_eq!(store.get(7, "_manage_stock").cloned(), some("false"));
    assert_eq!(store.get(7, "_stock_status").cloned(), some("onbackorder"));
    assert_eq!(store.get(7, "_product_attributes"), None);
    assert_eq!(store.get(7, "_sku").cloned(), some("keep"));
}

#[test]
fn product_slug_source_is_title_space_id() {
    assert_eq!(product_slug_source(7, &"Blue Shirt".to_string()), "Blue Shirt 7");
    assert_eq!(product_slug_source(-7, &"".to_string()), " -7");
}

#[test]
fn edit_path_holds_the_id() {
    assert_eq!(product_edit_path(7), "/products/7/edit");
    assert_eq!(product_edit_path(-12), "/products/-12/edit");
}

#[test]
fn product_slug_is_made_of_title_and_id() {
    assert_eq!(generate_product_slug(7, &"Blue Shirt".to_string()), "blue-shirt-7");
    assert_eq!(generate_product_slug(-7, &"Blue  Shirt!".to_string()), "blue-shirt-7");
    assert_eq!(generate_product_slug(12, &"".to_string()), "12");
    assert_eq!(generate_product_slug(3, &"Æúű".to_string()), "aeuu-3");
}

#[test]
fn form_fields_carry_over_to_the_product() {
    let mut item = Product {
        id: 9,
        title: "Old".to_string(),
        excerpt: None,
        status: None,
        product_type: None,
        author_id: 4,
        slug: some("old-9"),
    };
    params().update(&mut item);
    assert_eq!(item.id, 9);
    assert_eq!(item.title, "Blue Shirt");
    assert_eq!(item.excerpt, some("A shirt"));
    assert_eq!(item.status, some("publish"));
    assert_eq!(item.product_type, some("simple"));
    assert_eq!(item.author_id, 1);
    assert_eq!(item.slug, some("old-9"));
}

#[test]
fn empty_fields_are_none() {
    assert_eq!(empty_string_as_none(String::new()), None);
    assert_eq!(empty_string_as_none("8".to_string()), some("8"));
    assert_eq!(empty_string_as_none(" ".to_string()), some(" "));
    assert_eq!(empty_string_as_no_quantity(""), Ok(None));
    assert_eq!(empty_string_as_no_quantity("5"), Ok(Some(5)));
    assert_eq!(empty_string_as_no_quantity("-5"), Ok(Some(-5)));
    assert_eq!(empty_string_as_no_quantity("five"), Err(NotANumber));
    assert_eq!(empty_string_as_no_quantity(" "), Err(NotANumber));
    assert_eq!(copy_opt(&some("x")), some("x"));
    assert_eq!(copy_opt(&None), None);
}

#[test]
fn view_from_the_store_after_an_edit() {
    let mut store = MetaStore::new();
    store.upsert(7, "_sku", "A-1".to_string());
    store.upsert(8, "_stock", "broken".to_string());
    let mut p = params();
    p._regular_price = some("10");
    p._stock = Some(5);
    save_product_meta(&mut store, 7, &p);
    let view = ProductView::from_store(product(), &store).unwrap();
    assert_eq!(view.id, 7);
    assert_eq!(view.sku, some("A-1"));
    assert_eq!(view.regular_price, some("10"));
    assert_eq!(view.sale_price, None);
    assert_eq!(view.price, some("10"));
    assert_eq!(view.stock, Some(5));
    assert_eq!(view.stock_status, "instock");
    assert!(view.attributes.is_empty());
    save_product_meta(&mut store, 7, &params());
    let view = ProductView::from_store(product(), &store).unwrap();
    assert_eq!(view.stock, None);
    assert_eq!(view.stock_status, "onbackorder");
    assert_eq!(view.price, some("10"));
}

#[test]
fn view_from_the_store_reports_a_corrupt_stock() {
    let mut store = MetaStore::new();
    store.upsert(7, "_stock", "broken".to_string());
    assert_eq!(ProductView::from_store(product(), &store).err(), Some(CorruptStock));
}

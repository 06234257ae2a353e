//! Products: what an edit of a product writes to its metadata, and how a
//! product and its metadata are put together for display.

use vstd::prelude::*;
use vstd::string::*;
use crate::attributes::{
    AttributeView, ProductAttribute, attribute_views, attributes_from_form, encodes_attributes,
    form_attribute, parse_attributes, serialize_attributes, slug_of, slug_text, stored_attributes,
    well_formed_form,
};
use crate::json::{Json, json_text};
use crate::meta::{
    MetaStore, MetaWrite, Write, apply_writes, lemma_apply_writes_concat,
    lemma_apply_writes_untouched, write_key, write_views,
};
use crate::stock::{
    StockStatus, lemma_stock_cleared, lemma_stock_set, manage_stock_key, stock_key,
    stock_status_key, stock_writes, stock_writes_of,
};
use crate::text::{
    decimal, lemma_parse_decimal, opt_view, parse_i32, parse_i32_text, push_decimal, push_text,
    str_eq, string_of, views,
};

verus! {

/// A copy of a text that may be missing.
pub fn copy_opt(text: &Option<String>) -> (r: Option<String>)
    ensures
        opt_view(r) == opt_view(*text),
{
    match text {
        Some(t) => Some(t.clone()),
        None => None,
    }
}

/// A product as the catalog stores it.
pub struct Product {
    pub id: i32,
    pub title: String,
    pub excerpt: Option<String>,
    pub status: Option<String>,
    pub product_type: Option<String>,
    pub author_id: i32,
    pub slug: Option<String>,
}

/// The fields of the product form.
pub struct Params {
    pub title: String,
    pub excerpt: Option<String>,
    pub status: Option<String>,
    pub product_type: Option<String>,
    pub slug: Option<String>,
    pub _sku: Option<String>,
    /// The regular price, as the text that is stored.
    pub _regular_price: Option<String>,
    /// The sale price, as the text that is stored.
    pub _sale_price: Option<String>,
    /// The stock quantity; `None` for a product whose stock is not counted.
    pub _stock: Option<i32>,
    pub attributes_names: Vec<String>,
    pub attributes_values: Vec<Vec<String>>,
}

impl Params {
    /// Carries the fields of the form over to the product. The author is
    /// always the author 1.
    pub fn update(&self, item: &mut Product)
        ensures
            final(item).title@ == self.title@,
            opt_view(final(item).excerpt) == opt_view(self.excerpt),
            opt_view(final(item).status) == opt_view(self.status),
            opt_view(final(item).product_type) == opt_view(self.product_type),
            final(item).author_id == 1,
            final(item).id == old(item).id,
            final(item).slug == old(item).slug,
    {
        item.title = self.title.clone();
        item.excerpt = copy_opt(&self.excerpt);
        item.status = copy_opt(&self.status);
        item.product_type = copy_opt(&self.product_type);
        item.author_id = 1;
    }
}

/// The text of which the slug of a product is made: its title, a space and
/// its id.
pub fn product_slug_source(id: i32, title: &String) -> (text: String)
    ensures
        text@ == title@ + seq![' '] + decimal(id as int),
{
    let mut text: Vec<char> = Vec::new();
    push_text(&mut text, title.as_str());
    text.push(' ');
    push_decimal(&mut text, id as i64);
    assert(text@ =~= title@ + seq![' '] + decimal(id as int));
    string_of(&text)
}

/// The slug of a product: the slug of its title, a space and its id.
pub fn generate_product_slug(id: i32, title: &String) -> (slug: String)
    ensures
        slug@ == slug_text(title@ + seq![' '] + decimal(id as int)),
{
    let text = product_slug_source(id, title);
    slug_of(text.as_str())
}

/// The page on which the product `id` is edited.
pub fn product_edit_path(id: i32) -> (path: String)
    ensures
        path@ == "/products/"@ + decimal(id as int) + "/edit"@,
{
    let mut text: Vec<char> = Vec::new();
    push_text(&mut text, "/products/");
    push_decimal(&mut text, id as i64);
    push_text(&mut text, "/edit");
    assert(text@ =~= "/products/"@ + decimal(id as int) + "/edit"@);
    string_of(&text)
}

/// `None` for an empty text, else the text.
pub fn empty_string_as_none(text: String) -> (r: Option<String>)
    ensures
        opt_view(r) == if text@.len() == 0 {
            None
        } else {
            Some(text@)
        },
{
    if text.as_str().unicode_len() == 0 {
        None
    } else {
        Some(text)
    }
}

/// A form field that should hold a whole number and does not.
#[derive(Clone, Copy, Debug, PartialEq, Eq, Structural)]
pub struct NotANumber;

/// The quantity in a form field: `None` for an empty field, else the integer
/// that the field holds in decimal.
pub fn empty_string_as_no_quantity(text: &str) -> (r: Result<Option<i32>, NotANumber>)
    ensures
        r == if text@.len() == 0 {
            Ok::<Option<i32>, NotANumber>(None)
        } else {
            match parse_i32(text@) {
                Some(quantity) => Ok::<Option<i32>, NotANumber>(Some(quantity)),
                None => Err::<Option<i32>, NotANumber>(NotANumber),
            }
        },
{
    if text.unicode_len() == 0 {
        Ok(None)
    } else {
        match parse_i32_text(text) {
            Some(quantity) => Ok(Some(quantity)),
            None => Err(NotANumber),
        }
    }
}

/// The write that stores `value` under `key`, if there is a value.
pub open spec fn optional_write(key: Seq<char>, value: Option<Seq<char>>) -> Seq<Write> {
    match value {
        Some(v) => seq![Write::Upsert { key, value: v }],
        None => Seq::<Write>::empty(),
    }
}

/// The writes of a product edit but for the last: the regular price, the sale
/// price and the SKU, each where the form holds it, then the stock.
pub open spec fn plain_writes(
    regular_price: Option<Seq<char>>,
    sale_price: Option<Seq<char>>,
    sku: Option<Seq<char>>,
    stock: Option<i32>,
) -> Seq<Write> {
    optional_write("_regular_price"@, regular_price) + optional_write("_sale_price"@, sale_price)
        + optional_write("_sku"@, sku) + stock_writes_of(stock)
}

/// The attributes that the names and the lists of options of a form stand for.
pub open spec fn form_attributes(names: Seq<String>, values: Seq<Vec<String>>) -> Seq<
    AttributeView,
> {
    Seq::new(names.len(), |i: int| form_attribute(names[i]@, i, views(values[i]@)))
}

/// Whether `write` is the last write of a product edit: for a well-formed list
/// of attributes, it stores the JSON text of the list; for any other, it
/// removes what is stored.
pub open spec fn is_attributes_write(
    write: Write,
    names: Seq<String>,
    values: Seq<Vec<String>>,
) -> bool {
    if well_formed_form(names, values) {
        write matches Write::Upsert { key, value } && key == "_product_attributes"@ && exists|
            json: Json,
        |
            #[trigger] encodes_attributes(json, form_attributes(names, values)) && value
                == json_text(json)
    } else {
        write == (Write::Delete { key: "_product_attributes"@ })
    }
}

/// Whether `writes` are the writes of the product edit `params`.
pub open spec fn is_product_writes(writes: Seq<Write>, params: Params) -> bool {
    &&& writes.len() > 0
    &&& writes.drop_last() == plain_writes(
        opt_view(params._regular_price),
        opt_view(params._sale_price),
        opt_view(params._sku),
        params._stock,
    )
    &&& is_attributes_write(writes.last(), params.attributes_names@, params.attributes_values@)
}

fn push_optional(writes: &mut Vec<MetaWrite>, key: &str, value: &Option<String>)
    ensures
        write_views(final(writes)@) == write_views(old(writes)@) + optional_write(
            key@,
            opt_view(*value),
        ),
{
    let ghost before = write_views(writes@);
    match value {
        Some(v) => {
            writes.push(MetaWrite::Upsert { key: key.to_string(), value: v.clone() });
        },
        None => {},
    }
    assert(write_views(writes@) =~= before + optional_write(key@, opt_view(*value)));
}

/// The writes of a product edit, in the order in which they are made.
pub fn product_meta_writes(params: &Params) -> (writes: Vec<MetaWrite>)
    ensures
        is_product_writes(write_views(writes@), *params),
{
    let mut writes: Vec<MetaWrite> = Vec::new();
    assert(write_views(writes@) =~= Seq::<Write>::empty());
    push_optional(&mut writes, "_regular_price", &params._regular_price);
    push_optional(&mut writes, "_sale_price", &params._sale_price);
    push_optional(&mut writes, "_sku", &params._sku);
    let mut stock = stock_writes(params._stock);
    let ghost before = write_views(writes@);
    let ghost added = write_views(stock@);
    writes.append(&mut stock);
    assert(write_views(writes@) =~= before + added);
    let ghost plain = write_views(writes@);
    assert(plain =~= plain_writes(
        opt_view(params._regular_price),
        opt_view(params._sale_price),
        opt_view(params._sku),
        params._stock,
    ));
    let last = match attributes_from_form(&params.attributes_names, &params.attributes_values) {
        Some(attributes) => {
            assert(attribute_views(attributes@) =~= form_attributes(
                params.attributes_names@,
                params.attributes_values@,
            ));
            MetaWrite::Upsert {
                key: "_product_attributes".to_string(),
                value: serialize_attributes(&attributes),
            }
        },
        None => MetaWrite::Delete { key: "_product_attributes".to_string() },
    };
    let ghost last_view = last@;
    writes.push(last);
    assert(write_views(writes@) =~= plain.push(last_view));
    assert(write_views(writes@).drop_last() =~= plain);
    writes
}

/// Makes the writes of a product edit on the metadata of the product `id`, and
/// hands them back.
pub fn save_product_meta(store: &mut MetaStore, id: i32, params: &Params) -> (writes: Vec<
    MetaWrite,
>)
    requires
        old(store).wf(),
    ensures
        final(store).wf(),
        is_product_writes(write_views(writes@), *params),
        final(store)@ == apply_writes(old(store)@, id as int, write_views(writes@)),
{
    let writes = product_meta_writes(params);
    store.apply_all(id, &writes);
    writes
}

/// What the store holds of the stock of a product after an edit, whatever it
/// held before. With a quantity in the form: the flag is `true`, the status is
/// `instock` for a quantity above zero and `outofstock` otherwise, and the
/// stock entry is the decimal text of the quantity. Without one: the flag is
/// `false`, the status is `onbackorder`, and no stock entry is left.
pub proof fn lemma_saved_stock(
    store: Map<(int, Seq<char>), Seq<char>>,
    product_id: int,
    writes: Seq<Write>,
    params: Params,
)
    requires
        is_product_writes(writes, params),
    ensures
        ({
            let after = apply_writes(store, product_id, writes);
            let flag = (product_id, manage_stock_key());
            let status = (product_id, stock_status_key());
            let stock = (product_id, stock_key());
            &&& after.contains_key(flag)
            &&& after.contains_key(status)
            &&& match params._stock {
                Some(quantity) => {
                    &&& after[flag] == "true"@
                    &&& after[status] == StockStatus::of_quantity(quantity as int).text()
                    &&& after.contains_key(stock)
                    &&& after[stock] == decimal(quantity as int)
                },
                None => {
                    &&& after[flag] == "false"@
                    &&& after[status] == "onbackorder"@
                    &&& !after.contains_key(stock)
                },
            }
        }),
{
    let before_stock = optional_write("_regular_price"@, opt_view(params._regular_price))
        + optional_write("_sale_price"@, opt_view(params._sale_price)) + optional_write(
        "_sku"@,
        opt_view(params._sku),
    );
    let stock_part = stock_writes_of(params._stock);
    let plain = writes.drop_last();
    assert(plain == before_stock + stock_part);
    let earlier = apply_writes(store, product_id, before_stock);
    lemma_apply_writes_concat(store, product_id, before_stock, stock_part);
    let with_stock = apply_writes(earlier, product_id, stock_part);
    assert(apply_writes(store, product_id, plain) == with_stock);
    match params._stock {
        Some(quantity) => {
            lemma_stock_set(earlier, product_id, quantity);
        },
        None => {
            lemma_stock_cleared(earlier, product_id);
        },
    }
    reveal_strlit("_product_attributes");
    reveal_strlit("_stock");
    reveal_strlit("_manage_stock");
    reveal_strlit("_stock_status");
    assert("_product_attributes"@.len() == 19);
    assert(stock_key().len() == 6);
    assert(manage_stock_key().len() == 13);
    assert(stock_status_key().len() == 13);
    assert(write_key(writes.last()) == "_product_attributes"@);
}

/// One metadata entry of a product as it is read for display. Key and value
/// may each be missing.
pub struct PartialMetaModel {
    pub meta_key: Option<String>,
    pub meta_value: Option<String>,
}

/// A metadata entry over plain values: the mathematical form of
/// `PartialMetaModel`.
pub struct MetaPair {
    pub key: Option<Seq<char>>,
    pub value: Option<Seq<char>>,
}

impl View for PartialMetaModel {
    type V = MetaPair;

    open spec fn view(&self) -> MetaPair {
        MetaPair { key: opt_view(self.meta_key), value: opt_view(self.meta_value) }
    }
}

/// The views of a sequence of metadata entries.
pub open spec fn meta_pairs(entries: Seq<PartialMetaModel>) -> Seq<MetaPair> {
    Seq::new(entries.len(), |i: int| entries[i]@)
}

/// The value that counts for `key`: that of the last entry with this key that
/// has a value.
pub open spec fn last_value(entries: Seq<MetaPair>, key: Seq<char>) -> Option<Seq<char>>
    decreases entries.len(),
{
    if entries.len() == 0 {
        None
    } else if entries.last().key == Some(key) && entries.last().value is Some {
        entries.last().value
    } else {
        last_value(entries.drop_last(), key)
    }
}

/// A product with its metadata, ready for display or for the edit form.
#[derive(Debug)]
pub struct ProductView {
    pub id: i32,
    pub name: String,
    pub slug: String,
    pub product_type: String,
    pub excerpt: String,
    pub status: String,
    pub sku: Option<String>,
    /// The regular price, as the text that is stored.
    pub regular_price: Option<String>,
    /// The sale price, as the text that is stored.
    pub sale_price: Option<String>,
    /// The price that counts: the sale price where there is one, else the
    /// regular price.
    pub price: Option<String>,
    pub stock: Option<i32>,
    pub stock_status: String,
    pub attributes: Vec<ProductAttribute>,
}

/// A product for display over plain values: the mathematical form of
/// `ProductView`.
pub struct ProductPage {
    pub id: int,
    pub name: Seq<char>,
    pub slug: Seq<char>,
    pub product_type: Seq<char>,
    pub excerpt: Seq<char>,
    pub status: Seq<char>,
    pub sku: Option<Seq<char>>,
    pub regular_price: Option<Seq<char>>,
    pub sale_price: Option<Seq<char>>,
    pub price: Option<Seq<char>>,
    pub stock: Option<int>,
    pub stock_status: Seq<char>,
    pub attributes: Seq<AttributeView>,
}

impl View for ProductView {
    type V = ProductPage;

    open spec fn view(&self) -> ProductPage {
        ProductPage {
            id: self.id as int,
            name: self.name@,
            slug: self.slug@,
            product_type: self.product_type@,
            excerpt: self.excerpt@,
            status: self.status@,
            sku: opt_view(self.sku),
            regular_price: opt_view(self.regular_price),
            sale_price: opt_view(self.sale_price),
            price: opt_view(self.price),
            stock: match self.stock {
                Some(quantity) => Some(quantity as int),
                None => None,
            },
            stock_status: self.stock_status@,
            attributes: attribute_views(self.attributes@),
        }
    }
}

/// The product before anything is known of it: a simple product, a draft,
/// without metadata.
pub open spec fn blank_page() -> ProductPage {
    ProductPage {
        id: 0,
        name: Seq::<char>::empty(),
        slug: Seq::<char>::empty(),
        product_type: "simple"@,
        excerpt: Seq::<char>::empty(),
        status: "draft"@,
        sku: None,
        regular_price: None,
        sale_price: None,
        price: None,
        stock: None,
        stock_status: Seq::<char>::empty(),
        attributes: Seq::<AttributeView>::empty(),
    }
}

impl Default for ProductView {
    fn default() -> (view: Self)
        ensures
            view@ == blank_page(),
    {
        let view = ProductView {
            id: 0,
            name: String::new(),
            slug: String::new(),
            product_type: "simple".to_string(),
            excerpt: String::new(),
            status: "draft".to_string(),
            sku: None,
            regular_price: None,
            sale_price: None,
            price: None,
            stock: None,
            stock_status: String::new(),
            attributes: Vec::new(),
        };
        assert(view@.attributes =~= Seq::<AttributeView>::empty());
        view
    }
}

/// The stock entry of a product cannot be read as a 32-bit integer.
#[derive(Clone, Copy, Debug, PartialEq, Eq, Structural)]
pub struct CorruptStock;

/// The text, or the empty text where none is there.
pub open spec fn or_empty(text: Option<Seq<char>>) -> Seq<char> {
    match text {
        Some(t) => t,
        None => Seq::<char>::empty(),
    }
}

/// The price that counts: the sale price where there is one, else the regular
/// price, else none.
pub open spec fn effective_price(
    sale_price: Option<Seq<char>>,
    regular_price: Option<Seq<char>>,
) -> Option<Seq<char>> {
    if sale_price is Some {
        sale_price
    } else {
        regular_price
    }
}

/// The stored texts that count for the display of a product, each under its
/// key where there is one.
pub struct DisplayMeta {
    pub sku: Option<Seq<char>>,
    pub regular_price: Option<Seq<char>>,
    pub sale_price: Option<Seq<char>>,
    pub stock: Option<Seq<char>>,
    pub stock_status: Option<Seq<char>>,
    pub attributes: Option<Seq<char>>,
}

/// The texts that count among `entries`: for each key, the value of the last
/// entry with that key.
pub open spec fn display_meta_of(entries: Seq<MetaPair>) -> DisplayMeta {
    DisplayMeta {
        sku: last_value(entries, "_sku"@),
        regular_price: last_value(entries, "_regular_price"@),
        sale_price: last_value(entries, "_sale_price"@),
        stock: last_value(entries, "_stock"@),
        stock_status: last_value(entries, "_stock_status"@),
        attributes: last_value(entries, "_product_attributes"@),
    }
}

/// What `store` holds for the product `product_id` under `key`, if anything.
pub open spec fn stored(
    store: Map<(int, Seq<char>), Seq<char>>,
    product_id: int,
    key: Seq<char>,
) -> Option<Seq<char>> {
    if store.contains_key((product_id, key)) {
        Some(store[(product_id, key)])
    } else {
        None
    }
}

/// The texts that count for the display of the product `product_id` in
/// `store`.
pub open spec fn stored_display_meta(
    store: Map<(int, Seq<char>), Seq<char>>,
    product_id: int,
) -> DisplayMeta {
    DisplayMeta {
        sku: stored(store, product_id, "_sku"@),
        regular_price: stored(store, product_id, "_regular_price"@),
        sale_price: stored(store, product_id, "_sale_price"@),
        stock: stored(store, product_id, "_stock"@),
        stock_status: stored(store, product_id, "_stock_status"@),
        attributes: stored(store, product_id, "_product_attributes"@),
    }
}

/// The product `model` with the stored texts `meta`, ready for display; or the
/// error, where the stock is not the decimal text of a 32-bit integer. The
/// price is the sale price where there is one, else the regular price. The
/// attributes are those that the stored text stands for, none where it cannot
/// be read.
pub open spec fn page_with(model: Product, meta: DisplayMeta) -> Result<ProductPage, CorruptStock> {
    if meta.stock is Some && parse_i32(meta.stock->0) is None {
        Err(CorruptStock)
    } else {
        Ok(
            ProductPage {
                id: model.id as int,
                name: model.title@,
                slug: or_empty(opt_view(model.slug)),
                product_type: or_empty(opt_view(model.product_type)),
                excerpt: or_empty(opt_view(model.excerpt)),
                status: or_empty(opt_view(model.status)),
                sku: meta.sku,
                regular_price: meta.regular_price,
                sale_price: meta.sale_price,
                price: effective_price(meta.sale_price, meta.regular_price),
                stock: match meta.stock {
                    Some(text) => Some(parse_i32(text)->0 as int),
                    None => None,
                },
                stock_status: or_empty(meta.stock_status),
                attributes: match meta.attributes {
                    Some(text) => stored_attributes(text),
                    None => Seq::<AttributeView>::empty(),
                },
            },
        )
    }
}

/// The product `model` with the metadata `entries`, ready for display. For
/// each key the last entry counts.
pub open spec fn page_of(model: Product, entries: Seq<MetaPair>) -> Result<
    ProductPage,
    CorruptStock,
> {
    page_with(model, display_meta_of(entries))
}

/// The view of a reference to a text that may be missing.
pub open spec fn opt_ref_view(o: Option<&String>) -> Option<Seq<char>> {
    match o {
        Some(s) => Some(s@),
        None => None,
    }
}

fn copy_or_empty(text: &Option<String>) -> (r: String)
    ensures
        r@ == or_empty(opt_view(*text)),
{
    match text {
        Some(t) => t.clone(),
        None => String::new(),
    }
}

fn copy_ref(text: Option<&String>) -> (r: Option<String>)
    ensures
        opt_view(r) == opt_ref_view(text),
{
    match text {
        Some(t) => Some(t.clone()),
        None => None,
    }
}

proof fn lemma_display_keys()
    ensures
        "_sku"@.len() == 4,
        "_regular_price"@.len() == 14,
        "_sale_price"@.len() == 11,
        "_stock"@.len() == 6,
        "_stock_status"@.len() == 13,
        "_product_attributes"@.len() == 19,
{
    reveal_strlit("_sku");
    reveal_strlit("_regular_price");
    reveal_strlit("_sale_price");
    reveal_strlit("_stock");
    reveal_strlit("_stock_status");
    reveal_strlit("_product_attributes");
}

impl ProductView {
    /// Puts a product and its metadata together for display, as `page_of`
    /// defines it.
    pub fn build(model: Product, meta_data: &Vec<PartialMetaModel>) -> (r: Result<
        ProductView,
        CorruptStock,
    >)
        ensures
            match r {
                Ok(view) => page_of(model, meta_pairs(meta_data@)) == Ok::<
                    ProductPage,
                    CorruptStock,
                >(view@),
                Err(e) => page_of(model, meta_pairs(meta_data@)) is Err,
            },
            r is Ok ==> r->Ok_0@.price == effective_price(
                r->Ok_0@.sale_price,
                r->Ok_0@.regular_price,
            ),
    {
        let ghost entries = meta_pairs(meta_data@);
        let mut sku: Option<&String> = None;
        let mut regular_price: Option<&String> = None;
        let mut sale_price: Option<&String> = None;
        let mut stock: Option<&String> = None;
        let mut stock_status: Option<&String> = None;
        let mut attributes: Option<&String> = None;
        let mut i: usize = 0;
        while i < meta_data.len()
            invariant
                i <= meta_data.len(),
                entries == meta_pairs(meta_data@),
                opt_ref_view(sku) == last_value(entries.take(i as int), "_sku"@),
                opt_ref_view(regular_price) == last_value(
                    entries.take(i as int),
                    "_regular_price"@,
                ),
                opt_ref_view(sale_price) == last_value(entries.take(i as int), "_sale_price"@),
                opt_ref_view(stock) == last_value(entries.take(i as int), "_stock"@),
                opt_ref_view(stock_status) == last_value(
                    entries.take(i as int),
                    "_stock_status"@,
                ),
                opt_ref_view(attributes) == last_value(
                    entries.take(i as int),
                    "_product_attributes"@,
                ),
            decreases meta_data.len() - i,
        {
            proof {
                lemma_display_keys();
                assert(entries.take(i + 1).drop_last() == entries.take(i as int));
                assert(entries.take(i + 1).last() == meta_data@[i as int]@);
            }
            let entry = &meta_data[i];
            match (&entry.meta_key, &entry.meta_value) {
                (Some(key), Some(value)) => {
                    if str_eq(key.as_str(), "_sku") {
                        sku = Some(value);
                    } else if str_eq(key.as_str(), "_regular_price") {
                        regular_price = Some(value);
                    } else if str_eq(key.as_str(), "_sale_price") {
                        sale_price = Some(value);
                    } else if str_eq(key.as_str(), "_stock") {
                        stock = Some(value);
                    } else if str_eq(key.as_str(), "_stock_status") {
                        stock_status = Some(value);
                    } else if str_eq(key.as_str(), "_product_attributes") {
                        attributes = Some(value);
                    }
                },
                _ => {},
            }
            i += 1;
        }
        assert(entries.take(i as int) == entries);
        let stock = match stock {
            Some(text) => match parse_i32_text(text.as_str()) {
                Some(quantity) => Some(quantity),
                None => {
                    return Err(CorruptStock);
                },
            },
            None => None,
        };
        let price = if sale_price.is_some() {
            copy_ref(sale_price)
        } else {
            copy_ref(regular_price)
        };
        let attributes = match attributes {
            Some(text) => parse_attributes(text.as_str()),
            None => {
                let none: Vec<ProductAttribute> = Vec::new();
                assert(attribute_views(none@) =~= Seq::<AttributeView>::empty());
                none
            },
        };
        let stock_status = match stock_status {
            Some(text) => text.clone(),
            None => String::new(),
        };
        Ok(
            ProductView {
                id: model.id,
                name: model.title,
                slug: copy_or_empty(&model.slug),
                product_type: copy_or_empty(&model.product_type),
                excerpt: copy_or_empty(&model.excerpt),
                status: copy_or_empty(&model.status),
                sku: copy_ref(sku),
                regular_price: copy_ref(regular_price),
                sale_price: copy_ref(sale_price),
                price,
                stock,
                stock_status,
                attributes,
            },
        )
    }
}

proof fn lemma_last_value_absent(entries: Seq<MetaPair>, key: Seq<char>)
    requires
        forall|j: int| 0 <= j < entries.len() ==> (#[trigger] entries[j]).key != Some(key),
    ensures
        last_value(entries, key) is None,
    decreases entries.len(),
{
    if entries.len() > 0 {
        let head = entries.drop_last();
        assert forall|j: int| 0 <= j < head.len() implies (#[trigger] head[j]).key != Some(
            key,
        ) by {
            assert(head[j] == entries[j]);
        }
        assert(entries[entries.len() - 1].key != Some(key));
        lemma_last_value_absent(head, key);
    }
}

proof fn lemma_last_value_single(entries: Seq<MetaPair>, i: int, key: Seq<char>)
    requires
        0 <= i < entries.len(),
        entries[i].key == Some(key),
        entries[i].value is Some,
        forall|j: int| i < j < entries.len() ==> (#[trigger] entries[j]).key != Some(key),
    ensures
        last_value(entries, key) == entries[i].value,
    decreases entries.len(),
{
    if i < entries.len() - 1 {
        let head = entries.drop_last();
        assert forall|j: int| i < j < head.len() implies (#[trigger] head[j]).key != Some(
            key,
        ) by {
            assert(head[j] == entries[j]);
        }
        assert(entries[entries.len() - 1].key != Some(key));
        assert(head[i] == entries[i]);
        lemma_last_value_single(head, i, key);
    }
}

impl ProductView {
    /// Puts a product together for display from what the store holds for it,
    /// as `page_with` defines it.
    pub fn from_store(model: Product, store: &MetaStore) -> (r: Result<ProductView, CorruptStock>)
        requires
            store.wf(),
        ensures
            match r {
                Ok(view) => page_with(model, stored_display_meta(store@, model.id as int)) == Ok::<
                    ProductPage,
                    CorruptStock,
                >(view@),
                Err(e) => page_with(model, stored_display_meta(store@, model.id as int)) is Err,
            },
    {
        let entries = store.entries_of(model.id);
        let mut meta_data: Vec<PartialMetaModel> = Vec::new();
        let mut i: usize = 0;
        while i < entries.len()
            invariant
                i <= entries.len(),
                meta_data@.len() == i,
                forall|j: int|
                    0 <= j < i ==> (#[trigger] meta_data@[j])@ == (MetaPair {
                        key: Some(entries@[j].meta_key@),
                        value: Some(entries@[j].meta_value@),
                    }),
            decreases entries.len() - i,
        {
            meta_data.push(
                PartialMetaModel {
                    meta_key: Some(entries[i].meta_key.clone()),
                    meta_value: Some(entries[i].meta_value.clone()),
                },
            );
            i += 1;
        }
        proof {
            let pairs = meta_pairs(meta_data@);
            let id = model.id as int;
            assert forall|key: Seq<char>| last_value(pairs, key) == stored(store@, id, key) by {
                if store@.contains_key((id, key)) {
                    let k = choose|k: int|
                        0 <= k < entries@.len() && (#[trigger] entries@[k]).meta_key@ == key;
                    assert forall|j: int| k < j < pairs.len() implies (#[trigger] pairs[j]).key
                        != Some(key) by {
                        assert(entries@[k].meta_key@ != entries@[j].meta_key@);
                    }
                    assert(pairs[k].key == Some(key));
                    lemma_last_value_single(pairs, k, key);
                } else {
                    assert forall|j: int| 0 <= j < pairs.len() implies (#[trigger] pairs[j]).key
                        != Some(key) by {
                        assert(store@.contains_key((id, entries@[j].meta_key@)));
                    }
                    lemma_last_value_absent(pairs, key);
                }
            }
            assert(display_meta_of(pairs) == stored_display_meta(store@, id));
        }
        ProductView::build(model, &meta_data)
    }
}

/// The page of a product after an edit, whatever the store held before. The
/// page can be made: the stock is the quantity of the form, and the stock
/// status follows it, `onbackorder` without a quantity. A price and a SKU that
/// the form holds are those of the page, and the price that counts is the sale
/// price where the page has one, else the regular price.
pub proof fn lemma_page_after_edit(
    model: Product,
    store: Map<(int, Seq<char>), Seq<char>>,
    writes: Seq<Write>,
    params: Params,
)
    requires
        is_product_writes(writes, params),
    ensures
        ({
            let after = apply_writes(store, model.id as int, writes);
            let page = page_with(model, stored_display_meta(after, model.id as int));
            &&& page matches Ok(p)
            &&& p.stock == match params._stock {
                Some(quantity) => Some(quantity as int),
                None => None,
            }
            &&& p.stock_status == match params._stock {
                Some(quantity) => StockStatus::of_quantity(quantity as int).text(),
                None => "onbackorder"@,
            }
            &&& params._regular_price is Some ==> p.regular_price == opt_view(
                params._regular_price,
            )
            &&& params._sale_price is Some ==> p.sale_price == opt_view(params._sale_price)
            &&& params._sku is Some ==> p.sku == opt_view(params._sku)
            &&& p.price == effective_price(p.sale_price, p.regular_price)
        }),
{
    let id = model.id as int;
    lemma_saved_stock(store, id, writes, params);
    match params._stock {
        Some(quantity) => {
            lemma_parse_decimal(quantity as int);
        },
        None => {},
    }
    lemma_display_keys();
    reveal_strlit("_manage_stock");
    assert("_manage_stock"@.len() == 13);
    assert("_manage_stock"@[1] == 'm');
    reveal_strlit("_stock_status");
    assert("_stock_status"@[1] == 's');
    let regular = optional_write("_regular_price"@, opt_view(params._regular_price));
    let sale = optional_write("_sale_price"@, opt_view(params._sale_price));
    let sku = optional_write("_sku"@, opt_view(params._sku));
    let stock = stock_writes_of(params._stock);
    let last = seq![writes.last()];
    assert(writes == writes.drop_last().push(writes.last()));
    assert(writes == regular + (sale + (sku + (stock + last))));
    assert(write_key(writes.last()) == "_product_attributes"@);
    let s1 = apply_writes(store, id, regular);
    lemma_apply_writes_concat(store, id, regular, sale + (sku + (stock + last)));
    let s2 = apply_writes(s1, id, sale);
    lemma_apply_writes_concat(s1, id, sale, sku + (stock + last));
    let s3 = apply_writes(s2, id, sku);
    lemma_apply_writes_concat(s2, id, sku, stock + last);
    if params._regular_price is Some {
        let key = (id, "_regular_price"@);
        assert(regular.drop_last() == Seq::<Write>::empty());
        assert(apply_writes(store, id, regular.drop_last()) == store);
        assert(s1[key] == params._regular_price->0@);
        lemma_apply_writes_untouched(s1, id, sale + (sku + (stock + last)), key);
    }
    if params._sale_price is Some {
        let key = (id, "_sale_price"@);
        assert(sale.drop_last() == Seq::<Write>::empty());
        assert(apply_writes(s1, id, sale.drop_last()) == s1);
        assert(s2[key] == params._sale_price->0@);
        lemma_apply_writes_untouched(s2, id, sku + (stock + last), key);
    }
    if params._sku is Some {
        let key = (id, "_sku"@);
        assert(sku.drop_last() == Seq::<Write>::empty());
        assert(apply_writes(s2, id, sku.drop_last()) == s2);
        assert(s3[key] == params._sku->0@);
        lemma_apply_writes_untouched(s3, id, stock + last, key);
    }
}

} // verus!

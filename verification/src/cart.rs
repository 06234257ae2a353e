//! The cart of one visitor: an ordered list of lines, each a product and a
//! quantity under a key of its own.

use uuid::Uuid;
use vstd::prelude::*;
use vstd::string::*;
use crate::hash::{generate_hash, hash_content, sha256_hex};
use crate::stock::{StockError, availability, check_availability, lemma_out_of_stock_refused};
use crate::text::{decimal, nat_string, opt_str_view, opt_view, str_eq};

verus! {

/// One line of a cart.
#[derive(Debug)]
pub struct CartSession {
    /// The handle of the line, given to it when the line is made.
    pub key: String,
    /// The product.
    pub id: i32,
    /// How many of the product the cart holds.
    pub qty: i32,
}

/// A line of a cart over plain values: the mathematical form of `CartSession`.
pub struct CartLine {
    pub key: Seq<char>,
    pub id: int,
    pub qty: int,
}

impl View for CartSession {
    type V = CartLine;

    open spec fn view(&self) -> CartLine {
        CartLine { key: self.key@, id: self.id as int, qty: self.qty as int }
    }
}

impl Clone for CartSession {
    fn clone(&self) -> (copy: Self)
        ensures
            copy@ == self@,
    {
        CartSession { key: self.key.clone(), id: self.id, qty: self.qty }
    }
}

/// The lines of a cart, in order.
pub open spec fn lines(cart: Seq<CartSession>) -> Seq<CartLine> {
    Seq::new(cart.len(), |i: int| cart[i]@)
}

/// Whether line `i` is the first line of the product `id`.
pub open spec fn is_first_of_product(cart: Seq<CartLine>, i: int, id: int) -> bool {
    &&& 0 <= i < cart.len()
    &&& cart[i].id == id
    &&& forall|j: int| 0 <= j < i ==> (#[trigger] cart[j]).id != id
}

/// Whether the cart has a line of the product `id`.
pub open spec fn has_product(cart: Seq<CartLine>, id: int) -> bool {
    exists|i: int| 0 <= i < cart.len() && (#[trigger] cart[i]).id == id
}

/// The place of the first line of the product `id`, in a cart that has one.
pub open spec fn product_index(cart: Seq<CartLine>, id: int) -> int {
    choose|i: int| is_first_of_product(cart, i, id)
}

/// How many of the product `id` the cart holds: the quantity of its first line
/// of that product, zero without one.
pub open spec fn quantity_in(cart: Seq<CartLine>, id: int) -> int {
    if has_product(cart, id) {
        cart[product_index(cart, id)].qty
    } else {
        0
    }
}

/// Whether line `i` is the first line with the key `key`.
pub open spec fn is_first_with_key(cart: Seq<CartLine>, i: int, key: Seq<char>) -> bool {
    &&& 0 <= i < cart.len()
    &&& cart[i].key == key
    &&& forall|j: int| 0 <= j < i ==> (#[trigger] cart[j]).key != key
}

/// Whether the cart has a line with the key `key`.
pub open spec fn has_key(cart: Seq<CartLine>, key: Seq<char>) -> bool {
    exists|i: int| 0 <= i < cart.len() && (#[trigger] cart[i]).key == key
}

/// The place of the first line with the key `key`, in a cart that has one.
pub open spec fn key_index(cart: Seq<CartLine>, key: Seq<char>) -> int {
    choose|i: int| is_first_with_key(cart, i, key)
}

/// The cart after `qty` of the product `id` is added: the first line of the
/// product grows by `qty`; without such a line, a new last line holds the
/// product under `key`.
pub open spec fn with_added(cart: Seq<CartLine>, id: int, qty: int, key: Seq<char>) -> Seq<
    CartLine,
> {
    if has_product(cart, id) {
        let i = product_index(cart, id);
        cart.update(i, CartLine { key: cart[i].key, id, qty: cart[i].qty + qty })
    } else {
        cart.push(CartLine { key, id, qty })
    }
}

/// The cart after the quantity of the line `key` is set to `qty`: the first
/// line with that key changes; without such a line, nothing does.
pub open spec fn with_quantity(cart: Seq<CartLine>, key: Seq<char>, qty: int) -> Seq<CartLine> {
    if has_key(cart, key) {
        let i = key_index(cart, key);
        cart.update(i, CartLine { key, id: cart[i].id, qty })
    } else {
        cart
    }
}

/// The test that a line passes when its key is not `key`.
pub open spec fn other_than(key: Seq<char>) -> spec_fn(CartLine) -> bool {
    |line: CartLine| line.key != key
}

/// The cart without the lines whose key is `key`.
pub open spec fn without_key(cart: Seq<CartLine>, key: Seq<char>) -> Seq<CartLine> {
    cart.filter(other_than(key))
}

/// Whether no product has two lines. A cart that starts empty and changes only
/// through this module is of this kind.
pub open spec fn one_line_per_product(cart: Seq<CartLine>) -> bool {
    forall|i: int, j: int|
        0 <= i < j < cart.len() ==> (#[trigger] cart[i]).id != (#[trigger] cart[j]).id
}

/// The first line of a product is where `product_index` says.
pub proof fn lemma_product_index(cart: Seq<CartLine>, i: int, id: int)
    requires
        is_first_of_product(cart, i, id),
    ensures
        has_product(cart, id),
        product_index(cart, id) == i,
{
    let c = product_index(cart, id);
    assert(is_first_of_product(cart, c, id));
    if c < i {
        assert(cart[c].id != id);
    } else if i < c {
        assert(cart[i].id != id);
    }
}

/// The first line with a key is where `key_index` says.
pub proof fn lemma_key_index(cart: Seq<CartLine>, i: int, key: Seq<char>)
    requires
        is_first_with_key(cart, i, key),
    ensures
        has_key(cart, key),
        key_index(cart, key) == i,
{
    let c = key_index(cart, key);
    assert(is_first_with_key(cart, c, key));
    if c < i {
        assert(cart[c].key != key);
    } else if i < c {
        assert(cart[i].key != key);
    }
}

/// The place of the first line of the product `id`, if the cart has one.
pub fn find_product(cart: &Vec<CartSession>, id: i32) -> (r: Option<usize>)
    ensures
        match r {
            Some(i) => is_first_of_product(lines(cart@), i as int, id as int),
            None => !has_product(lines(cart@), id as int),
        },
        r is Some ==> r->0 == product_index(lines(cart@), id as int),
{
    let mut i: usize = 0;
    while i < cart.len()
        invariant
            i <= cart.len(),
            forall|j: int| 0 <= j < i ==> (#[trigger] lines(cart@)[j]).id != id,
        decreases cart.len() - i,
    {
        if cart[i].id == id {
            proof {
                assert(lines(cart@)[i as int].id == id);
                lemma_product_index(lines(cart@), i as int, id as int);
            }
            return Some(i);
        }
        assert(lines(cart@)[i as int].id != id);
        i += 1;
    }
    None
}

/// The place of the first line with the key `key`, if the cart has one.
pub fn find_key(cart: &Vec<CartSession>, key: &str) -> (r: Option<usize>)
    ensures
        match r {
            Some(i) => is_first_with_key(lines(cart@), i as int, key@),
            None => !has_key(lines(cart@), key@),
        },
        r is Some ==> r->0 == key_index(lines(cart@), key@),
{
    let mut i: usize = 0;
    while i < cart.len()
        invariant
            i <= cart.len(),
            forall|j: int| 0 <= j < i ==> (#[trigger] lines(cart@)[j]).key != key@,
        decreases cart.len() - i,
    {
        if str_eq(cart[i].key.as_str(), key) {
            proof {
                assert(lines(cart@)[i as int].key == key@);
                lemma_key_index(lines(cart@), i as int, key@);
            }
            return Some(i);
        }
        assert(lines(cart@)[i as int].key != key@);
        i += 1;
    }
    None
}

/// How many of the product `id` the cart holds.
pub fn quantity_of(cart: &Vec<CartSession>, id: i32) -> (qty: i32)
    ensures
        qty == quantity_in(lines(cart@), id as int),
{
    match find_product(cart, id) {
        Some(i) => cart[i].qty,
        None => 0,
    }
}

/// Why a cart was left as it was.
#[derive(Clone, Copy, Debug, PartialEq, Eq, Structural)]
pub enum CartError {
    /// The stock policy refuses the quantity.
    Stock(StockError),
    /// The quantity of the line would leave the range of a 32-bit integer.
    QuantityOverflow,
}

/// Whether `v` is a quantity that a line can hold.
pub open spec fn fits_quantity(v: int) -> bool {
    i32::MIN <= v <= i32::MAX
}

/// Adds `qty` of the product `id` to the cart. A new line, where one is made,
/// gets the key `key`. The cart is left as it was where the quantity of the
/// line would leave the range of a 32-bit integer.
pub fn add_item(cart: &mut Vec<CartSession>, id: i32, qty: i32, key: String) -> (r: Result<
    (),
    CartError,
>)
    ensures
        match r {
            Ok(()) => {
                &&& fits_quantity(quantity_in(lines(old(cart)@), id as int) + qty)
                &&& lines(final(cart)@) == with_added(
                    lines(old(cart)@),
                    id as int,
                    qty as int,
                    key@,
                )
            },
            Err(e) => {
                &&& e == CartError::QuantityOverflow
                &&& !fits_quantity(quantity_in(lines(old(cart)@), id as int) + qty)
                &&& *final(cart) == *old(cart)
            },
        },
{
    match find_product(cart, id) {
        Some(i) => {
            let sum: i64 = cart[i].qty as i64 + qty as i64;
            if sum < -2147483648 || sum > 2147483647 {
                return Err(CartError::QuantityOverflow);
            }
            let line = CartSession { key: cart[i].key.clone(), id, qty: sum as i32 };
            cart.set(i, line);
            assert(lines(cart@) =~= with_added(lines(old(cart)@), id as int, qty as int, key@));
            Ok(())
        },
        None => {
            cart.push(CartSession { key, id, qty });
            assert(lines(cart@) =~= with_added(lines(old(cart)@), id as int, qty as int, key@));
            Ok(())
        },
    }
}

/// Sets the quantity of the first line with the key `key` to `qty`. A cart
/// without such a line is left as it was.
pub fn update_item(cart: &mut Vec<CartSession>, key: &str, qty: i32)
    ensures
        lines(final(cart)@) == with_quantity(lines(old(cart)@), key@, qty as int),
        !has_key(lines(old(cart)@), key@) ==> *final(cart) == *old(cart),
{
    match find_key(cart, key) {
        Some(i) => {
            let line = CartSession { key: cart[i].key.clone(), id: cart[i].id, qty };
            cart.set(i, line);
            assert(lines(cart@) =~= with_quantity(lines(old(cart)@), key@, qty as int));
        },
        None => {},
    }
}

/// Takes every line with the key `key` out of the cart. The lines that stay
/// keep their order.
pub fn remove_item(cart: &mut Vec<CartSession>, key: &str)
    ensures
        lines(final(cart)@) == without_key(lines(old(cart)@), key@),
{
    let ghost before = lines(cart@);
    let mut kept: Vec<CartSession> = Vec::new();
    let mut i: usize = 0;
    while i < cart.len()
        invariant
            i <= cart.len(),
            before == lines(cart@),
            lines(kept@) == before.take(i as int).filter(other_than(key@)),
        decreases cart.len() - i,
    {
        proof {
            let head = before.take(i as int);
            assert(before.take(i + 1) == head.push(before[i as int]));
            Seq::lemma_filter_push(head, before[i as int], other_than(key@));
        }
        if !str_eq(cart[i].key.as_str(), key) {
            let line = cart[i].clone();
            let ghost shown = lines(kept@);
            let ghost added = line@;
            kept.push(line);
            assert(lines(kept@) =~= shown.push(added));
        }
        i += 1;
    }
    assert(before.take(i as int) == before);
    *cart = kept;
}

/// Removing a key that no line has leaves the cart as it is.
pub proof fn lemma_remove_absent_key(cart: Seq<CartLine>, key: Seq<char>)
    requires
        !has_key(cart, key),
    ensures
        without_key(cart, key) == cart,
    decreases cart.len(),
{
    if cart.len() > 0 {
        let head = cart.drop_last();
        assert forall|i: int| 0 <= i < head.len() implies (#[trigger] head[i]).key != key by {
            assert(cart[i].key != key);
        }
        lemma_remove_absent_key(head, key);
        assert(cart.last().key != key);
        assert(cart == head.push(cart.last()));
        Seq::lemma_filter_push(head, cart.last(), other_than(key));
    } else {
        assert(cart.filter(other_than(key)).len() <= cart.len()) by {
            Seq::lemma_filter_len(cart, other_than(key));
        }
        assert(without_key(cart, key) =~= cart);
    }
}

/// Calls `Uuid::new_v4` of the crate uuid and prints the result: a random
/// identifier, of which nothing is promised.
#[verifier::external_body]
fn random_id() -> (id: String) {
    Uuid::new_v4().to_string()
}

/// What the visitor is sent after a cart has changed: the values of the three
/// cookies.
pub struct CartCookies {
    /// The session id: the one the visitor came with, or a new one.
    pub session_id: String,
    /// The hash of the cart.
    pub cart_hash: String,
    /// The number of lines of the cart, in decimal.
    pub items: String,
}

/// Whether `cookies` are the cookies of the cart `cart` for a visitor who came
/// with `session_id`.
pub open spec fn cookies_of(
    cookies: CartCookies,
    session_id: Option<Seq<char>>,
    cart: Seq<CartLine>,
) -> bool {
    &&& session_id is Some ==> cookies.session_id@ == session_id->0
    &&& cookies.cart_hash@ == sha256_hex(hash_content(cookies.session_id@, cart))
    &&& cookies.items@ == decimal(cart.len() as int)
}

/// The cookies of `cart` for a visitor who came with `session_id`. A visitor
/// without a session id is given a random one.
pub fn cart_cookies(cart: &Vec<CartSession>, session_id: Option<String>) -> (cookies: CartCookies)
    ensures
        cookies_of(cookies, opt_view(session_id), lines(cart@)),
{
    let session_id = match session_id {
        Some(id) => id,
        None => random_id(),
    };
    let cart_hash = generate_hash(cart, &session_id);
    let items = nat_string(cart.len() as u64);
    CartCookies { session_id, cart_hash, items }
}

/// What the visitor sends to add a product to the cart.
#[derive(Debug)]
pub struct CartParams {
    /// The product.
    pub id: i32,
    /// How many of it to add.
    pub qty: i32,
    /// The slug of the product, for the way back to its page.
    pub slug: String,
}

/// What the visitor sends to take a line out of the cart.
#[derive(Debug)]
pub struct CartRemoveItemParams {
    pub key: String,
}

/// What the visitor sends to set the quantity of a line.
#[derive(Debug)]
pub struct CartUpdateItemParams {
    pub key: String,
    pub qty: i32,
}

/// How an attempt to add a product ended.
pub enum AddOutcome {
    /// The cart has changed; the visitor gets new cookies.
    Added { cookies: CartCookies, redirect_to: String },
    /// The cart is as it was; the visitor is shown the error.
    Rejected { error: CartError, redirect_to: String },
}

impl CartError {
    /// The message shown to the visitor.
    pub fn message(&self) -> (text: &'static str)
        ensures
            text@ == "The requested quantity is not available"@,
    {
        "The requested quantity is not available"
    }
}

/// The page of the product with the slug `slug`.
pub open spec fn product_path(slug: Seq<char>) -> Seq<char> {
    "/products/p/"@ + slug
}

/// Whether `qty` more of a product may be added to a cart that holds `in_cart`
/// of it: the stock policy must accept it, and the quantity of the line must
/// stay a 32-bit integer.
pub open spec fn add_verdict(
    status: Option<Seq<char>>,
    stock: Option<Seq<char>>,
    qty: int,
    in_cart: int,
) -> Result<(), CartError> {
    match availability(status, stock, qty, in_cart) {
        Err(e) => Err(CartError::Stock(e)),
        Ok(()) => if fits_quantity(in_cart + qty) {
            Ok(())
        } else {
            Err(CartError::QuantityOverflow)
        },
    }
}

/// Adds a product to the cart, if the stock policy allows it.
///
/// `stock_status` and `stock` are the stored stock status and stock quantity
/// of the product, where there are any; `session_id` is the session id that the
/// visitor came with. A rejected request leaves the cart as it was. An accepted
/// one raises the quantity of the line of the product, or appends a line under
/// a new random key. Either way the visitor goes back to the page of the
/// product.
pub fn add(
    cart: &mut Vec<CartSession>,
    params: &CartParams,
    stock_status: Option<&str>,
    stock: Option<&str>,
    session_id: Option<String>,
) -> (outcome: AddOutcome)
    ensures
        ({
            let before = lines(old(cart)@);
            let after = lines(final(cart)@);
            let verdict = add_verdict(
                opt_str_view(stock_status),
                opt_str_view(stock),
                params.qty as int,
                quantity_in(before, params.id as int),
            );
            match outcome {
                AddOutcome::Rejected { error, redirect_to } => {
                    &&& verdict == Err::<(), CartError>(error)
                    &&& *final(cart) == *old(cart)
                    &&& redirect_to@ == product_path(params.slug@)
                },
                AddOutcome::Added { cookies, redirect_to } => {
                    &&& verdict is Ok
                    &&& after == with_added(
                        before,
                        params.id as int,
                        params.qty as int,
                        after.last().key,
                    )
                    &&& cookies_of(cookies, opt_view(session_id), after)
                    &&& redirect_to@ == product_path(params.slug@)
                },
            }
        }),
        opt_str_view(stock_status) == Some("outofstock"@) ==> outcome is Rejected && *final(cart)
            == *old(cart),
{
    proof {
        if opt_str_view(stock_status) == Some("outofstock"@) {
            lemma_out_of_stock_refused(
                opt_str_view(stock),
                params.qty as int,
                quantity_in(lines(cart@), params.id as int),
            );
        }
    }
    let mut redirect_to = "/products/p/".to_string();
    redirect_to.append(params.slug.as_str());
    let found = find_product(cart, params.id);
    let in_cart = match found {
        Some(i) => cart[i].qty,
        None => 0,
    };
    match check_availability(stock_status, stock, params.qty, in_cart) {
        Err(e) => {
            return AddOutcome::Rejected { error: CartError::Stock(e), redirect_to };
        },
        Ok(()) => {},
    }
    let key = match found {
        Some(i) => String::new(),
        None => random_id(),
    };
    let ghost new_key = key@;
    match add_item(cart, params.id, params.qty, key) {
        Err(error) => AddOutcome::Rejected { error, redirect_to },
        Ok(()) => {
            proof {
                let before = lines(old(cart)@);
                let after = lines(cart@);
                if !has_product(before, params.id as int) {
                    assert(after.last().key == new_key);
                }
            }
            let cookies = cart_cookies(cart, session_id);
            AddOutcome::Added { cookies, redirect_to }
        },
    }
}

/// Sets the quantity of a line. The quantity is not held against the stock.
/// The visitor gets new cookies and goes to the cart.
pub fn update(
    cart: &mut Vec<CartSession>,
    params: &CartUpdateItemParams,
    session_id: Option<String>,
) -> (r: (CartCookies, String))
    ensures
        lines(final(cart)@) == with_quantity(lines(old(cart)@), params.key@, params.qty as int),
        cookies_of(r.0, opt_view(session_id), lines(final(cart)@)),
        r.1@ == "/cart"@,
{
    update_item(cart, params.key.as_str(), params.qty);
    let cookies = cart_cookies(cart, session_id);
    (cookies, "/cart".to_string())
}

/// Takes a line out of the cart. A key that no line has changes nothing. The
/// visitor gets new cookies and goes to the cart.
pub fn remove(
    cart: &mut Vec<CartSession>,
    params: &CartRemoveItemParams,
    session_id: Option<String>,
) -> (r: (CartCookies, String))
    ensures
        lines(final(cart)@) == without_key(lines(old(cart)@), params.key@),
        !has_key(lines(old(cart)@), params.key@) ==> lines(final(cart)@) == lines(old(cart)@),
        cookies_of(r.0, opt_view(session_id), lines(final(cart)@)),
        r.1@ == "/cart"@,
{
    proof {
        if !has_key(lines(cart@), params.key@) {
            lemma_remove_absent_key(lines(cart@), params.key@);
        }
    }
    remove_item(cart, params.key.as_str());
    let cookies = cart_cookies(cart, session_id);
    (cookies, "/cart".to_string())
}

/// A product as the cart page needs it.
pub struct PartialProductModel {
    pub id: i32,
    pub name: String,
    pub slug: Option<String>,
}

/// A product over plain values: the mathematical form of
/// `PartialProductModel`.
pub struct ProductRow {
    pub id: int,
    pub name: Seq<char>,
    pub slug: Option<Seq<char>>,
}

impl View for PartialProductModel {
    type V = ProductRow;

    open spec fn view(&self) -> ProductRow {
        ProductRow { id: self.id as int, name: self.name@, slug: opt_view(self.slug) }
    }
}

/// A line of the cart page: a line of the cart with the product that it holds.
#[derive(Debug)]
pub struct PartialCartProduct {
    pub key: String,
    pub id: i32,
    pub slug: Option<String>,
    pub name: String,
    pub quantity: i32,
}

/// A line of the cart page over plain values: the mathematical form of
/// `PartialCartProduct`.
pub struct CartRow {
    pub key: Seq<char>,
    pub id: int,
    pub slug: Option<Seq<char>>,
    pub name: Seq<char>,
    pub quantity: int,
}

impl View for PartialCartProduct {
    type V = CartRow;

    open spec fn view(&self) -> CartRow {
        CartRow {
            key: self.key@,
            id: self.id as int,
            slug: opt_view(self.slug),
            name: self.name@,
            quantity: self.quantity as int,
        }
    }
}

/// The views of a sequence of products.
pub open spec fn product_rows(products: Seq<PartialProductModel>) -> Seq<ProductRow> {
    Seq::new(products.len(), |i: int| products[i]@)
}

/// The views of the lines of a cart page.
pub open spec fn cart_rows(rows: Seq<PartialCartProduct>) -> Seq<CartRow> {
    Seq::new(rows.len(), |i: int| rows[i]@)
}

/// The cart page: for each product of `products`, in their order, that the
/// cart holds, the first line of that product with the name and slug of the
/// product. A product that the cart does not hold gives no line, and a line
/// whose product is not among `products` is left out.
pub open spec fn page_rows(cart: Seq<CartLine>, products: Seq<ProductRow>) -> Seq<CartRow>
    decreases products.len(),
{
    if products.len() == 0 {
        Seq::<CartRow>::empty()
    } else {
        let before = page_rows(cart, products.drop_last());
        let product = products.last();
        if has_product(cart, product.id) {
            let line = cart[product_index(cart, product.id)];
            before.push(
                CartRow {
                    key: line.key,
                    id: product.id,
                    slug: product.slug,
                    name: product.name,
                    quantity: line.qty,
                },
            )
        } else {
            before
        }
    }
}

/// The products that the cart holds, line by line: what to ask the catalog
/// for.
pub fn product_ids(cart: &Vec<CartSession>) -> (ids: Vec<i32>)
    ensures
        ids@.len() == cart@.len(),
        forall|i: int| 0 <= i < cart@.len() ==> ids@[i] == cart@[i].id,
{
    let mut ids: Vec<i32> = Vec::new();
    let mut i: usize = 0;
    while i < cart.len()
        invariant
            i <= cart.len(),
            ids@.len() == i,
            forall|j: int| 0 <= j < i ==> ids@[j] == cart@[j].id,
        decreases cart.len() - i,
    {
        ids.push(cart[i].id);
        i += 1;
    }
    ids
}

/// Puts the cart page together from the cart and the products that the
/// catalog still has. Lines of products that are gone are left out.
pub fn show(cart: &Vec<CartSession>, products: Vec<PartialProductModel>) -> (page: Vec<
    PartialCartProduct,
>)
    ensures
        cart_rows(page@) == page_rows(lines(cart@), product_rows(products@)),
{
    let ghost all = product_rows(products@);
    let mut page: Vec<PartialCartProduct> = Vec::new();
    for product in it: products
        invariant
            it.seq() == products@,
            all == product_rows(products@),
            cart_rows(page@) == page_rows(lines(cart@), all.take(it.index())),
    {
        let ghost k = it.index();
        proof {
            assert(all.take(k + 1).drop_last() == all.take(k));
            assert(all.take(k + 1).last() == product@);
        }
        match find_product(cart, product.id) {
            Some(i) => {
                let ghost shown = cart_rows(page@);
                let row = PartialCartProduct {
                    key: cart[i].key.clone(),
                    id: product.id,
                    slug: product.slug,
                    name: product.name,
                    quantity: cart[i].qty,
                };
                let ghost added = row@;
                page.push(row);
                assert(cart_rows(page@) =~= shown.push(added));
            },
            None => {},
        }
    }
    assert(all.take(all.len() as int) == all);
    page
}

/// The number of lines of the product `id`.
pub open spec fn lines_of_product(cart: Seq<CartLine>, id: int) -> nat
    decreases cart.len(),
{
    if cart.len() == 0 {
        0
    } else if cart.last().id == id {
        lines_of_product(cart.drop_last(), id) + 1
    } else {
        lines_of_product(cart.drop_last(), id)
    }
}

/// The sum of the numbers of `qtys`.
pub open spec fn total(qtys: Seq<int>) -> int
    decreases qtys.len(),
{
    if qtys.len() == 0 {
        0
    } else {
        total(qtys.drop_last()) + qtys.last()
    }
}

/// The cart after the quantities of `qtys` of the product `id` are added one
/// after the other, the n-th under the key `keys[n]`.
pub open spec fn with_all_added(
    cart: Seq<CartLine>,
    id: int,
    qtys: Seq<int>,
    keys: Seq<Seq<char>>,
) -> Seq<CartLine>
    decreases qtys.len(),
{
    if qtys.len() == 0 {
        cart
    } else {
        with_added(
            with_all_added(cart, id, qtys.drop_last(), keys.drop_last()),
            id,
            qtys.last(),
            keys.last(),
        )
    }
}

proof fn lemma_absent_product(cart: Seq<CartLine>, id: int)
    requires
        !has_product(cart, id),
    ensures
        lines_of_product(cart, id) == 0,
        forall|j: int| 0 <= j < cart.len() ==> (#[trigger] cart[j]).id != id,
    decreases cart.len(),
{
    if cart.len() > 0 {
        let head = cart.drop_last();
        assert forall|j: int| 0 <= j < head.len() implies (#[trigger] head[j]).id != id by {
            assert(cart[j].id != id);
        }
        assert(cart[cart.len() - 1].id != id);
        lemma_absent_product(head, id);
    }
}

/// A cart in which no product has two lines has one line of each product that
/// it holds.
pub proof fn lemma_one_line(cart: Seq<CartLine>, id: int)
    requires
        one_line_per_product(cart),
        has_product(cart, id),
    ensures
        lines_of_product(cart, id) == 1,
    decreases cart.len(),
{
    let head = cart.drop_last();
    let n = cart.len() - 1;
    assert forall|i: int, j: int| 0 <= i < j < head.len() implies (#[trigger] head[i]).id != (
    #[trigger] head[j]).id by {
        assert(cart[i].id != cart[j].id);
    }
    if cart.last().id == id {
        assert forall|j: int| 0 <= j < head.len() implies (#[trigger] head[j]).id != id by {
            assert(cart[j].id != cart[n].id);
        }
        lemma_absent_product(head, id);
    } else {
        let i = choose|i: int| 0 <= i < cart.len() && (#[trigger] cart[i]).id == id;
        assert(head[i].id == id);
        lemma_one_line(head, id);
    }
}

/// After one addition the cart holds the product, with the quantity it had
/// before and the quantity added; and a cart in which no product had two lines
/// is still of that kind.
pub proof fn lemma_added(cart: Seq<CartLine>, id: int, qty: int, key: Seq<char>)
    ensures
        has_product(with_added(cart, id, qty, key), id),
        quantity_in(with_added(cart, id, qty, key), id) == quantity_in(cart, id) + qty,
        one_line_per_product(cart) ==> one_line_per_product(with_added(cart, id, qty, key)),
        with_added(cart, id, qty, key).len() == if has_product(cart, id) {
            cart.len()
        } else {
            cart.len() + 1
        },
{
    let after = with_added(cart, id, qty, key);
    if has_product(cart, id) {
        let w = choose|i: int| 0 <= i < cart.len() && (#[trigger] cart[i]).id == id;
        lemma_first_exists(cart, id, w);
        let i = product_index(cart, id);
        assert(is_first_of_product(cart, i, id));
        assert(after[i].id == id);
        assert forall|j: int| 0 <= j < i implies (#[trigger] after[j]).id != id by {
            assert(cart[j].id != id);
        }
        lemma_product_index(after, i, id);
        if one_line_per_product(cart) {
            assert forall|a: int, b: int| 0 <= a < b < after.len() implies (#[trigger] after[a]).id
                != (#[trigger] after[b]).id by {
                assert(cart[a].id != cart[b].id);
            }
        }
    } else {
        lemma_absent_product(cart, id);
        let n = cart.len() as int;
        assert(after[n].id == id);
        assert forall|j: int| 0 <= j < n implies (#[trigger] after[j]).id != id by {
            assert(cart[j].id != id);
        }
        lemma_product_index(after, n, id);
        if one_line_per_product(cart) {
            assert forall|a: int, b: int| 0 <= a < b < after.len() implies (#[trigger] after[a]).id
                != (#[trigger] after[b]).id by {
                if b < n {
                    assert(cart[a].id != cart[b].id);
                } else {
                    assert(cart[a].id != id);
                }
            }
        }
    }
}

proof fn lemma_first_exists(cart: Seq<CartLine>, id: int, w: int)
    requires
        0 <= w < cart.len(),
        cart[w].id == id,
    ensures
        exists|i: int| is_first_of_product(cart, i, id),
    decreases w,
{
    if exists|j: int| 0 <= j < w && (#[trigger] cart[j]).id == id {
        let j = choose|j: int| 0 <= j < w && (#[trigger] cart[j]).id == id;
        lemma_first_exists(cart, id, j);
    } else {
        assert(is_first_of_product(cart, w, id));
    }
}

/// However many times a product is added to a cart in which no product has two
/// lines, the cart ends with one line of that product, and the line holds what
/// the cart held of the product before and the sum of what was added.
pub proof fn lemma_repeated_add(
    cart: Seq<CartLine>,
    id: int,
    qtys: Seq<int>,
    keys: Seq<Seq<char>>,
)
    requires
        one_line_per_product(cart),
        qtys.len() == keys.len(),
        qtys.len() > 0,
    ensures
        one_line_per_product(with_all_added(cart, id, qtys, keys)),
        lines_of_product(with_all_added(cart, id, qtys, keys), id) == 1,
        quantity_in(with_all_added(cart, id, qtys, keys), id) == quantity_in(cart, id) + total(
            qtys,
        ),
    decreases qtys.len(),
{
    let earlier = with_all_added(cart, id, qtys.drop_last(), keys.drop_last());
    if qtys.len() == 1 {
        assert(earlier == cart);
        assert(total(qtys.drop_last()) == 0);
    } else {
        lemma_repeated_add(cart, id, qtys.drop_last(), keys.drop_last());
    }
    lemma_added(earlier, id, qtys.last(), keys.last());
    lemma_one_line(with_all_added(cart, id, qtys, keys), id);
}

/// Setting a quantity or taking lines out keeps a cart in which no product has
/// two lines of that kind.
pub proof fn lemma_changes_keep_one_line(cart: Seq<CartLine>, key: Seq<char>, qty: int)
    requires
        one_line_per_product(cart),
    ensures
        one_line_per_product(with_quantity(cart, key, qty)),
        one_line_per_product(without_key(cart, key)),
{
    let set = with_quantity(cart, key, qty);
    if has_key(cart, key) {
        let w = choose|i: int| 0 <= i < cart.len() && (#[trigger] cart[i]).key == key;
        lemma_first_key_exists(cart, key, w);
        assert(is_first_with_key(cart, key_index(cart, key), key));
    }
    assert forall|a: int, b: int| 0 <= a < b < set.len() implies (#[trigger] set[a]).id != (
    #[trigger] set[b]).id by {
        assert(cart[a].id != cart[b].id);
    }
    lemma_filter_keeps_one_line(cart, key);
}

proof fn lemma_first_key_exists(cart: Seq<CartLine>, key: Seq<char>, w: int)
    requires
        0 <= w < cart.len(),
        cart[w].key == key,
    ensures
        exists|i: int| is_first_with_key(cart, i, key),
    decreases w,
{
    if exists|j: int| 0 <= j < w && (#[trigger] cart[j]).key == key {
        let j = choose|j: int| 0 <= j < w && (#[trigger] cart[j]).key == key;
        lemma_first_key_exists(cart, key, j);
    } else {
        assert(is_first_with_key(cart, w, key));
    }
}

proof fn lemma_filter_keeps_one_line(cart: Seq<CartLine>, key: Seq<char>)
    requires
        one_line_per_product(cart),
    ensures
        one_line_per_product(without_key(cart, key)),
        forall|id: int| has_product(without_key(cart, key), id) ==> has_product(cart, id),
    decreases cart.len(),
{
    let kept = without_key(cart, key);
    if cart.len() == 0 {
        Seq::lemma_filter_len(cart, other_than(key));
    } else {
        let head = cart.drop_last();
        let n = cart.len() - 1;
        assert forall|i: int, j: int| 0 <= i < j < head.len() implies (#[trigger] head[i]).id != (
        #[trigger] head[j]).id by {
            assert(cart[i].id != cart[j].id);
        }
        lemma_filter_keeps_one_line(head, key);
        assert(cart == head.push(cart.last()));
        Seq::lemma_filter_push(head, cart.last(), other_than(key));
        let kept_head = without_key(head, key);
        assert forall|id: int| has_product(kept, id) implies has_product(cart, id) by {
            let i = choose|i: int| 0 <= i < kept.len() && (#[trigger] kept[i]).id == id;
            if i < kept_head.len() {
                assert(kept_head[i].id == id);
                assert(has_product(kept_head, id));
                assert(has_product(head, id));
                let j = choose|j: int| 0 <= j < head.len() && (#[trigger] head[j]).id == id;
                assert(cart[j].id == id);
            } else {
                assert(cart[n].id == id);
            }
        }
        if cart.last().key != key {
            assert(kept == kept_head.push(cart.last()));
            assert forall|a: int, b: int| 0 <= a < b < kept.len() implies (#[trigger] kept[a]).id
                != (#[trigger] kept[b]).id by {
                if b < kept_head.len() {
                    assert(kept_head[a].id != kept_head[b].id);
                } else {
                    assert(kept_head[a].id == kept_head[a].id);
                    if kept_head[a].id == cart[n].id {
                        assert(has_product(kept_head, cart[n].id));
                        assert(has_product(head, cart[n].id));
                        let j = choose|j: int|
                            0 <= j < head.len() && (#[trigger] head[j]).id == cart[n].id;
                        assert(cart[j].id != cart[n].id);
                    }
                }
            }
        }
    }
}

} // verus!

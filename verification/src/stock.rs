//! The stock policy: the three entries that describe the stock of a product,
//! and whether a quantity of it may go into a cart.

use vstd::prelude::*;
use crate::meta::{MetaWrite, Write, apply_write, apply_writes, write_views};
use crate::text::{
    decimal, int_string, lemma_parse_decimal, opt_str_view, parse_i32, parse_i32_text, str_eq,
};

verus! {

/// The key of the stock quantity.
pub open spec fn stock_key() -> Seq<char> {
    "_stock"@
}

/// The key of the flag that says whether the stock is counted.
pub open spec fn manage_stock_key() -> Seq<char> {
    "_manage_stock"@
}

/// The key of the stock status.
pub open spec fn stock_status_key() -> Seq<char> {
    "_stock_status"@
}

/// The three keys of the stock policy are different from one another.
pub proof fn lemma_stock_keys_differ()
    ensures
        stock_key() != manage_stock_key(),
        stock_key() != stock_status_key(),
        manage_stock_key() != stock_status_key(),
{
    reveal_strlit("_stock");
    reveal_strlit("_manage_stock");
    reveal_strlit("_stock_status");
    assert(stock_key().len() == 6);
    assert(manage_stock_key().len() == 13);
    assert(stock_status_key().len() == 13);
    assert(manage_stock_key()[1] == 'm');
    assert(stock_status_key()[1] == 's');
}

/// Whether a product can be had.
#[derive(Clone, Copy, Debug, PartialEq, Eq, Structural)]
pub enum StockStatus {
    InStock,
    OutOfStock,
    OnBackorder,
}

impl StockStatus {
    /// The word under which the status is stored.
    pub open spec fn text(self) -> Seq<char> {
        match self {
            StockStatus::InStock => "instock"@,
            StockStatus::OutOfStock => "outofstock"@,
            StockStatus::OnBackorder => "onbackorder"@,
        }
    }

    /// The status that a stored word stands for, if it is one of the three.
    pub open spec fn of_text(word: Seq<char>) -> Option<StockStatus> {
        if word == "instock"@ {
            Some(StockStatus::InStock)
        } else if word == "outofstock"@ {
            Some(StockStatus::OutOfStock)
        } else if word == "onbackorder"@ {
            Some(StockStatus::OnBackorder)
        } else {
            None
        }
    }

    /// The status of a product whose stock is counted and stands at `quantity`.
    pub open spec fn of_quantity(quantity: int) -> StockStatus {
        if quantity > 0 {
            StockStatus::InStock
        } else {
            StockStatus::OutOfStock
        }
    }

    /// The word under which the status is stored.
    pub fn as_str(&self) -> (word: &'static str)
        ensures
            word@ == self.text(),
    {
        match self {
            StockStatus::InStock => "instock",
            StockStatus::OutOfStock => "outofstock",
            StockStatus::OnBackorder => "onbackorder",
        }
    }

    /// Reads a stored word.
    pub fn parse(word: &str) -> (status: Option<StockStatus>)
        ensures
            status == Self::of_text(word@),
    {
        if str_eq(word, "instock") {
            Some(StockStatus::InStock)
        } else if str_eq(word, "outofstock") {
            Some(StockStatus::OutOfStock)
        } else if str_eq(word, "onbackorder") {
            Some(StockStatus::OnBackorder)
        } else {
            None
        }
    }

    /// The status of a product whose stock is counted and stands at `quantity`.
    pub fn for_quantity(quantity: i32) -> (status: StockStatus)
        ensures
            status == Self::of_quantity(quantity as int),
    {
        if quantity > 0 {
            StockStatus::InStock
        } else {
            StockStatus::OutOfStock
        }
    }
}

/// Reading the word of a status gives the status back.
pub proof fn lemma_status_text_round_trip(status: StockStatus)
    ensures
        StockStatus::of_text(status.text()) == Some(status),
{
    reveal_strlit("instock");
    reveal_strlit("outofstock");
    reveal_strlit("onbackorder");
    assert("instock"@.len() == 7);
    assert("outofstock"@.len() == 10);
    assert("onbackorder"@.len() == 11);
}

/// The writes that set or clear the stock of a product. With a quantity, the
/// stock is counted: the quantity is stored, the status follows it, and the
/// flag is `true`. Without one, the stock entry goes, the flag is `false` and
/// the status is `onbackorder`.
pub open spec fn stock_writes_of(quantity: Option<i32>) -> Seq<Write> {
    match quantity {
        Some(q) => seq![
            Write::Upsert { key: stock_key(), value: decimal(q as int) },
            Write::Upsert {
                key: stock_status_key(),
                value: StockStatus::of_quantity(q as int).text(),
            },
            Write::Upsert { key: manage_stock_key(), value: "true"@ },
        ],
        None => seq![
            Write::Delete { key: stock_key() },
            Write::Upsert { key: manage_stock_key(), value: "false"@ },
            Write::Upsert { key: stock_status_key(), value: StockStatus::OnBackorder.text() },
        ],
    }
}

/// The writes that set the stock of a product to `quantity`, or clear it.
pub fn stock_writes(quantity: Option<i32>) -> (writes: Vec<MetaWrite>)
    ensures
        write_views(writes@) == stock_writes_of(quantity),
{
    let mut writes: Vec<MetaWrite> = Vec::new();
    match quantity {
        Some(q) => {
            writes.push(
                MetaWrite::Upsert { key: "_stock".to_string(), value: int_string(q as i64) },
            );
            writes.push(
                MetaWrite::Upsert {
                    key: "_stock_status".to_string(),
                    value: StockStatus::for_quantity(q).as_str().to_string(),
                },
            );
            writes.push(
                MetaWrite::Upsert { key: "_manage_stock".to_string(), value: "true".to_string() },
            );
        },
        None => {
            writes.push(MetaWrite::Delete { key: "_stock".to_string() });
            writes.push(
                MetaWrite::Upsert { key: "_manage_stock".to_string(), value: "false".to_string() },
            );
            writes.push(
                MetaWrite::Upsert {
                    key: "_stock_status".to_string(),
                    value: StockStatus::OnBackorder.as_str().to_string(),
                },
            );
        },
    }
    assert(write_views(writes@) =~= stock_writes_of(quantity));
    writes
}

/// After the stock of a product is set to a quantity, whatever the store held
/// before: the flag is `true`, the status is `instock` for a quantity above
/// zero and `outofstock` otherwise, and the stock entry is the decimal text of
/// the quantity.
pub proof fn lemma_stock_set(
    store: Map<(int, Seq<char>), Seq<char>>,
    product_id: int,
    quantity: i32,
)
    ensures
        ({
            let after = apply_writes(store, product_id, stock_writes_of(Some(quantity)));
            &&& after.contains_key((product_id, manage_stock_key()))
            &&& after[(product_id, manage_stock_key())] == "true"@
            &&& after.contains_key((product_id, stock_status_key()))
            &&& after[(product_id, stock_status_key())] == StockStatus::of_quantity(
                quantity as int,
            ).text()
            &&& after.contains_key((product_id, stock_key()))
            &&& after[(product_id, stock_key())] == decimal(quantity as int)
        }),
{
    lemma_stock_keys_differ();
    let w = stock_writes_of(Some(quantity));
    lemma_apply_three(store, product_id, w);
}

/// After the stock of a product is cleared, whatever the store held before:
/// the flag is `false`, the status is `onbackorder`, and no stock entry is
/// left.
pub proof fn lemma_stock_cleared(store: Map<(int, Seq<char>), Seq<char>>, product_id: int)
    ensures
        ({
            let after = apply_writes(store, product_id, stock_writes_of(None));
            &&& after.contains_key((product_id, manage_stock_key()))
            &&& after[(product_id, manage_stock_key())] == "false"@
            &&& after.contains_key((product_id, stock_status_key()))
            &&& after[(product_id, stock_status_key())] == "onbackorder"@
            &&& !after.contains_key((product_id, stock_key()))
        }),
{
    lemma_stock_keys_differ();
    let w = stock_writes_of(None);
    lemma_apply_three(store, product_id, w);
}

/// Setting or clearing the stock touches no entry of another product and no
/// entry under another key.
pub proof fn lemma_stock_writes_frame(
    store: Map<(int, Seq<char>), Seq<char>>,
    product_id: int,
    quantity: Option<i32>,
    other: (int, Seq<char>),
)
    requires
        other.0 != product_id || (other.1 != stock_key() && other.1 != manage_stock_key()
            && other.1 != stock_status_key()),
    ensures
        ({
            let after = apply_writes(store, product_id, stock_writes_of(quantity));
            &&& after.contains_key(other) == store.contains_key(other)
            &&& store.contains_key(other) ==> after[other] == store[other]
        }),
{
    let w = stock_writes_of(quantity);
    lemma_apply_three(store, product_id, w);
}

proof fn lemma_apply_three(store: Map<(int, Seq<char>), Seq<char>>, product_id: int, w: Seq<Write>)
    requires
        w.len() == 3,
    ensures
        apply_writes(store, product_id, w) == apply_write(
            apply_write(apply_write(store, product_id, w[0]), product_id, w[1]),
            product_id,
            w[2],
        ),
{
    let w2 = w.drop_last();
    let w1 = w2.drop_last();
    let w0 = w1.drop_last();
    assert(w0.len() == 0);
    assert(w1.last() == w[0]);
    assert(w2.last() == w[1]);
    assert(apply_writes(store, product_id, w0) == store);
    assert(apply_writes(store, product_id, w1) == apply_write(store, product_id, w[0]));
    assert(apply_writes(store, product_id, w2) == apply_write(
        apply_writes(store, product_id, w1),
        product_id,
        w[1],
    ));
    assert(apply_writes(store, product_id, w) == apply_write(
        apply_writes(store, product_id, w2),
        product_id,
        w[2],
    ));
}

/// Why a quantity of a product may not go into a cart.
#[derive(Clone, Copy, Debug, PartialEq, Eq, Structural)]
pub enum StockError {
    /// The product is out of stock.
    OutOfStock,
    /// The stock does not cover what is asked for together with what the cart
    /// holds already.
    Insufficient,
    /// The product is marked as in stock, but its stock entry is missing or is
    /// not the decimal text of a 32-bit integer.
    CorruptStock,
}

/// Whether `requested` more of a product may go into a cart that holds
/// `in_cart` of it. `status` and `stock` are the stored stock status and stock
/// quantity of the product, where there are any.
///
/// A product that is out of stock is refused. One that is in stock is refused
/// where `requested + in_cart` is above the stock, or where the stock cannot be
/// read. Every other product is accepted: one on backorder, one without a
/// status, one with a status that is none of the three words.
pub open spec fn availability(
    status: Option<Seq<char>>,
    stock: Option<Seq<char>>,
    requested: int,
    in_cart: int,
) -> Result<(), StockError> {
    match status {
        None => Ok(()),
        Some(word) => match StockStatus::of_text(word) {
            Some(StockStatus::OutOfStock) => Err(StockError::OutOfStock),
            Some(StockStatus::InStock) => match stock {
                None => Err(StockError::CorruptStock),
                Some(text) => match parse_i32(text) {
                    None => Err(StockError::CorruptStock),
                    Some(available) => if requested + in_cart > available {
                        Err(StockError::Insufficient)
                    } else {
                        Ok(())
                    },
                },
            },
            _ => Ok(()),
        },
    }
}

/// Decides whether `requested` more of a product may go into a cart that holds
/// `in_cart` of it, as `availability` defines it.
pub fn check_availability(
    status: Option<&str>,
    stock: Option<&str>,
    requested: i32,
    in_cart: i32,
) -> (r: Result<(), StockError>)
    ensures
        r == availability(
            opt_str_view(status),
            opt_str_view(stock),
            requested as int,
            in_cart as int,
        ),
{
    let word = match status {
        None => {
            return Ok(());
        },
        Some(word) => word,
    };
    match StockStatus::parse(word) {
        Some(StockStatus::OutOfStock) => Err(StockError::OutOfStock),
        Some(StockStatus::InStock) => {
            let text = match stock {
                None => {
                    return Err(StockError::CorruptStock);
                },
                Some(text) => text,
            };
            match parse_i32_text(text) {
                None => Err(StockError::CorruptStock),
                Some(available) => {
                    if requested as i64 + in_cart as i64 > available as i64 {
                        Err(StockError::Insufficient)
                    } else {
                        Ok(())
                    }
                },
            }
        },
        _ => Ok(()),
    }
}

/// A product that is out of stock is refused, whatever is asked for.
pub proof fn lemma_out_of_stock_refused(stock: Option<Seq<char>>, requested: int, in_cart: int)
    ensures
        availability(Some("outofstock"@), stock, requested, in_cart) == Err::<(), StockError>(
            StockError::OutOfStock,
        ),
{
    lemma_status_text_round_trip(StockStatus::OutOfStock);
}

/// A product that is in stock with `available` pieces is refused exactly when
/// what is asked for and what the cart holds are together more than that.
pub proof fn lemma_in_stock_checked(available: i32, requested: int, in_cart: int)
    ensures
        availability(Some("instock"@), Some(decimal(available as int)), requested, in_cart)
            == if requested + in_cart > available {
            Err::<(), StockError>(StockError::Insufficient)
        } else {
            Ok::<(), StockError>(())
        },
{
    lemma_status_text_round_trip(StockStatus::InStock);
    lemma_parse_decimal(available as int);
}

/// With the entries that `stock_writes` stores for a quantity, a request is
/// accepted exactly when the quantity is above zero and covers what is asked
/// for together with what the cart holds.
pub proof fn lemma_availability_after_stock_set(quantity: i32, requested: int, in_cart: int)
    ensures
        availability(
            Some(StockStatus::of_quantity(quantity as int).text()),
            Some(decimal(quantity as int)),
            requested,
            in_cart,
        ) == if quantity <= 0 {
            Err::<(), StockError>(StockError::OutOfStock)
        } else if requested + in_cart > quantity {
            Err::<(), StockError>(StockError::Insufficient)
        } else {
            Ok::<(), StockError>(())
        },
{
    lemma_status_text_round_trip(StockStatus::of_quantity(quantity as int));
    lemma_parse_decimal(quantity as int);
}

} // verus!

//! The hash of a cart: a digest of the session and of what the cart holds,
//! by which a page can tell that its picture of the cart is stale.

use sha2::{Digest, Sha256};
use vstd::prelude::*;
use crate::cart::{CartLine, CartSession, lines};
use crate::text::{
    decimal, lemma_decimal_chars, lemma_decimal_injective, push_decimal, push_text, string_of,
};

verus! {

/// One line as it goes into the hash: the product, a `*`, the quantity and a
/// `+`.
pub open spec fn line_text(line: CartLine) -> Seq<char> {
    decimal(line.id) + seq!['*'] + decimal(line.qty) + seq!['+']
}

/// The lines of a cart as they go into the hash, one after the other.
pub open spec fn items_text(cart: Seq<CartLine>) -> Seq<char>
    decreases cart.len(),
{
    if cart.len() == 0 {
        Seq::<char>::empty()
    } else {
        items_text(cart.drop_last()) + line_text(cart.last())
    }
}

/// The text whose digest is the hash of a cart: the session id and a colon,
/// then the lines, as `product*quantity`, joined by `+`. It is built as the
/// session id, the colon and `items_text`, less the last character; so for a
/// cart without lines it is the session id alone.
pub open spec fn hash_content(session_id: Seq<char>, cart: Seq<CartLine>) -> Seq<char> {
    (session_id + seq![':'] + items_text(cart)).drop_last()
}

/// The SHA-256 digest of the UTF-8 bytes of `content`, as 64 lowercase
/// hexadecimal digits: what `Sha256` of the crate sha2 computes, printed with
/// `{:x}`.
pub uninterp spec fn sha256_hex(content: Seq<char>) -> Seq<char>;

/// Feeds `content` to a new `Sha256` of the crate sha2 (`Digest::new`,
/// `Digest::update`, `Digest::finalize`) and prints the digest with `{:x}`.
/// The digest depends on the bytes handed in and on nothing else.
#[verifier::external_body]
fn hex_digest(content: &str) -> (digest: String)
    ensures
        digest@ == sha256_hex(content@),
{
    let mut hasher = Sha256::new();
    hasher.update(content);
    format!("{:x}", hasher.finalize())
}

/// The text whose digest is the hash of the cart `params` in the session
/// `session_id`.
pub fn hash_content_of(params: &Vec<CartSession>, session_id: &String) -> (content: String)
    ensures
        content@ == hash_content(session_id@, lines(params@)),
{
    let mut out: Vec<char> = Vec::new();
    push_text(&mut out, session_id.as_str());
    out.push(':');
    let ghost head = session_id@ + seq![':'];
    assert(out@ == head);
    let mut i: usize = 0;
    while i < params.len()
        invariant
            i <= params.len(),
            out@ == head + items_text(lines(params@).take(i as int)),
            out@.len() > 0,
        decreases params.len() - i,
    {
        let ghost before = out@;
        let ghost shown = lines(params@);
        proof {
            assert(shown.take(i + 1).drop_last() == shown.take(i as int));
            assert(shown.take(i + 1).last() == params@[i as int]@);
        }
        push_decimal(&mut out, params[i].id as i64);
        out.push('*');
        push_decimal(&mut out, params[i].qty as i64);
        out.push('+');
        assert(out@ == before + line_text(params@[i as int]@));
        assert(out@ == head + items_text(shown.take(i + 1)));
        i += 1;
    }
    assert(lines(params@).take(i as int) == lines(params@));
    out.pop();
    string_of(&out)
}

/// The hash of the cart `params` in the session `session_id`: the digest of
/// `hash_content`. The same session and lines always give the same hash.
pub fn generate_hash(params: &Vec<CartSession>, session_id: &String) -> (hash: String)
    ensures
        hash@ == sha256_hex(hash_content(session_id@, lines(params@))),
{
    let content = hash_content_of(params, session_id);
    hex_digest(content.as_str())
}

/// Whether two carts hold the same products in the same quantities, line by
/// line. The keys of the lines do not count.
pub open spec fn same_goods(a: Seq<CartLine>, b: Seq<CartLine>) -> bool {
    &&& a.len() == b.len()
    &&& forall|i: int|
        0 <= i < a.len() ==> (#[trigger] a[i]).id == b[i].id && a[i].qty == b[i].qty
}

proof fn lemma_line_layout(head: Seq<char>, line: CartLine)
    ensures
        ({
            let s = head + line_text(line);
            let id = decimal(line.id);
            let qty = decimal(line.qty);
            let star = (head.len() + id.len()) as int;
            &&& s.len() == head.len() + id.len() + qty.len() + 2
            &&& forall|k: int| 0 <= k < head.len() ==> s[k] == head[k]
            &&& forall|k: int| 0 <= k < id.len() ==> s[head.len() + k] == id[k]
            &&& s[star] == '*'
            &&& forall|k: int| 0 <= k < qty.len() ==> s[star + 1 + k] == qty[k]
            &&& s[star + 1 + qty.len() as int] == '+'
        }),
{
}

proof fn lemma_last_line(x: Seq<char>, a: CartLine, y: Seq<char>, b: CartLine)
    requires
        x + line_text(a) == y + line_text(b),
        x.len() == 0 || x.last() == '+',
        y.len() == 0 || y.last() == '+',
    ensures
        a.id == b.id,
        a.qty == b.qty,
        x == y,
{
    let s = x + line_text(a);
    let ida = decimal(a.id);
    let qa = decimal(a.qty);
    let idb = decimal(b.id);
    let qb = decimal(b.qty);
    lemma_line_layout(x, a);
    lemma_line_layout(y, b);
    lemma_decimal_chars(a.id);
    lemma_decimal_chars(a.qty);
    lemma_decimal_chars(b.id);
    lemma_decimal_chars(b.qty);
    let pa = (x.len() + ida.len()) as int;
    let pb = (y.len() + idb.len()) as int;
    if qa.len() < qb.len() {
        let k = pa - pb - 1;
        assert(s[pb + 1 + k] == qb[k]);
        assert(false);
    }
    if qb.len() < qa.len() {
        let k = pb - pa - 1;
        assert(s[pa + 1 + k] == qa[k]);
        assert(false);
    }
    assert(pa == pb);
    assert(qa =~= qb) by {
        assert forall|k: int| 0 <= k < qa.len() implies qa[k] == qb[k] by {
            assert(s[pa + 1 + k] == qa[k]);
            assert(s[pb + 1 + k] == qb[k]);
        }
    }
    lemma_decimal_injective(a.qty, b.qty);
    if ida.len() < idb.len() {
        let k = x.len() - 1 - y.len();
        assert(s[x.len() - 1] == x[x.len() - 1]);
        assert(s[y.len() + k] == idb[k]);
        assert(false);
    }
    if idb.len() < ida.len() {
        let k = y.len() - 1 - x.len();
        assert(s[y.len() - 1] == y[y.len() - 1]);
        assert(s[x.len() + k] == ida[k]);
        assert(false);
    }
    assert(ida =~= idb) by {
        assert forall|k: int| 0 <= k < ida.len() implies ida[k] == idb[k] by {
            assert(s[x.len() + k] == ida[k]);
            assert(s[y.len() + k] == idb[k]);
        }
    }
    lemma_decimal_injective(a.id, b.id);
    assert(x =~= y) by {
        assert forall|k: int| 0 <= k < x.len() implies x[k] == y[k] by {
            assert(s[k] == x[k]);
            assert(s[k] == y[k]);
        }
    }
}

proof fn lemma_items_text_end(cart: Seq<CartLine>)
    ensures
        cart.len() == 0 ==> items_text(cart).len() == 0,
        cart.len() > 0 ==> items_text(cart).len() > 0 && items_text(cart).last() == '+',
{
    if cart.len() > 0 {
        lemma_line_layout(items_text(cart.drop_last()), cart.last());
    }
}

/// Carts whose lines go into the hash as the same text hold the same products
/// in the same quantities.
pub proof fn lemma_items_text_injective(a: Seq<CartLine>, b: Seq<CartLine>)
    requires
        items_text(a) == items_text(b),
    ensures
        same_goods(a, b),
    decreases a.len(),
{
    lemma_items_text_end(a);
    lemma_items_text_end(b);
    if a.len() > 0 {
        let x = items_text(a.drop_last());
        let y = items_text(b.drop_last());
        lemma_items_text_end(a.drop_last());
        lemma_items_text_end(b.drop_last());
        lemma_last_line(x, a.last(), y, b.last());
        lemma_items_text_injective(a.drop_last(), b.drop_last());
        assert forall|i: int| 0 <= i < a.len() implies (#[trigger] a[i]).id == b[i].id && a[i].qty
            == b[i].qty by {
            if i < a.len() - 1 {
                assert(a.drop_last()[i] == a[i]);
                assert(b.drop_last()[i] == b[i]);
            }
        }
    }
}

/// In one session, carts with the same hashed text hold the same products in
/// the same quantities: a change of a quantity, of a product or of the number
/// of lines changes the text that is hashed. Two different carts of a session
/// can share a hash only where SHA-256 gives two texts the same digest.
pub proof fn lemma_hash_content_injective(
    session_id: Seq<char>,
    a: Seq<CartLine>,
    b: Seq<CartLine>,
)
    requires
        hash_content(session_id, a) == hash_content(session_id, b),
    ensures
        same_goods(a, b),
{
    let head = session_id + seq![':'];
    let fa = head + items_text(a);
    let fb = head + items_text(b);
    lemma_items_text_end(a);
    lemma_items_text_end(b);
    assert(fa.drop_last().len() == fb.drop_last().len());
    if a.len() > 0 && b.len() > 0 {
        assert(fa.last() == '+');
        assert(fb.last() == '+');
        assert(fa =~= fa.drop_last().push('+'));
        assert(fb =~= fb.drop_last().push('+'));
        assert(items_text(a) =~= fa.subrange(head.len() as int, fa.len() as int));
        assert(items_text(b) =~= fb.subrange(head.len() as int, fb.len() as int));
        lemma_items_text_injective(a, b);
    }
}

} // verus!

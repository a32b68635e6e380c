//! The product catalog: creating products, with the barcodes and product
//! codes that the ledger assigns, and changing, retiring and listing them.

use crate::clock::Moment;
use crate::error::{ErrorView, LedgerError};
use crate::ledger::{
    text_of, ExchangeItem, Ledger, ReturnItem, SaleRecord, TransferRecord,
};
use crate::order::{orders, sorted_positions};
use crate::stock::{find_product, has_barcode, position, unique_barcodes, Product};
use crate::text::{
    decimal, digit_char, digit_text, leading_number, norm_opt, norm_req, push_char,
    push_decimal, read_number, strip_hyphens, to_upper, trim, trimmed, uppercase_of,
    without_hyphens,
};
use vstd::prelude::*;
use vstd::string::*;

verus! {

/// The plain capital letter that a Turkish letter stands for; any other
/// character stands for itself.
pub open spec fn plain_letter(c: char) -> char {
    let u = c as u32;
    if u == 0xe7 || u == 0xc7 {
        'C'
    } else if u == 0x11f || u == 0x11e {
        'G'
    } else if u == 0x131 || u == 0x130 {
        'I'
    } else if u == 0xf6 || u == 0xd6 {
        'O'
    } else if u == 0x15f || u == 0x15e {
        'S'
    } else if u == 0xfc || u == 0xdc {
        'U'
    } else {
        c
    }
}

/// The text with its Turkish letters made plain.
pub open spec fn plain(s: Seq<char>) -> Seq<char> {
    Seq::new(s.len(), |i: int| plain_letter(s[i]))
}

/// Whether a character is an ASCII letter or digit.
pub open spec fn is_alnum(c: char) -> bool {
    let u = c as u32;
    (0x30 <= u <= 0x39) || (0x41 <= u <= 0x5a) || (0x61 <= u <= 0x7a)
}

/// The first three ASCII letters and digits of a text.
pub open spec fn first_three(s: Seq<char>) -> Seq<char>
    decreases s.len(),
{
    if s.len() == 0 {
        s
    } else {
        let r = first_three(s.drop_last());
        if r.len() < 3 && is_alnum(s.last()) {
            r.push(s.last())
        } else {
            r
        }
    }
}

/// A text of at most three characters, filled up to three with `X`.
pub open spec fn filled(s: Seq<char>) -> Seq<char> {
    if s.len() == 0 {
        seq!['X', 'X', 'X']
    } else if s.len() == 1 {
        s + seq!['X', 'X']
    } else if s.len() == 2 {
        s + seq!['X']
    } else {
        s
    }
}

/// The product-code prefix that an upper-case category name yields: its first
/// three ASCII letters and digits, filled up with `X`; `PRD` where it has
/// none.
pub open spec fn prefix_named(upper: Seq<char>) -> Seq<char> {
    if first_three(upper).len() == 0 {
        seq!['P', 'R', 'D']
    } else {
        filled(first_three(upper))
    }
}

/// The product-code prefix of a category: the name is trimmed, its Turkish
/// letters are made plain, and it is folded to upper case; a missing category
/// counts as blank.
pub open spec fn prefix_of(category: Option<Seq<char>>) -> Seq<char> {
    match category {
        Some(c) => prefix_named(uppercase_of(plain(trimmed(c)))),
        None => prefix_named(uppercase_of(plain(trimmed(Seq::empty())))),
    }
}

fn plain_char(c: char) -> (r: char)
    ensures
        r == plain_letter(c),
{
    let u = c as u32;
    if u == 0xe7 || u == 0xc7 {
        'C'
    } else if u == 0x11f || u == 0x11e {
        'G'
    } else if u == 0x131 || u == 0x130 {
        'I'
    } else if u == 0xf6 || u == 0xd6 {
        'O'
    } else if u == 0x15f || u == 0x15e {
        'S'
    } else if u == 0xfc || u == 0xdc {
        'U'
    } else {
        c
    }
}

fn make_plain(s: &str) -> (r: String)
    ensures
        r@ == plain(s@),
{
    let n = s.unicode_len();
    let mut out = String::new();
    let mut i: usize = 0;
    while i < n
        invariant
            i <= n,
            n == s@.len(),
            out@.len() == i,
            forall|j: int| 0 <= j < i ==> #[trigger] out@[j] == plain_letter(s@[j]),
        decreases n - i,
    {
        push_char(&mut out, plain_char(s.get_char(i)));
        i += 1;
    }
    assert(out@ =~= plain(s@));
    out
}

/// The product-code prefix that an upper-case category name yields.
pub fn prefix_from_upper(upper: &str) -> (r: String)
    ensures
        r@ == prefix_named(upper@),
        r@.len() == 3,
{
    let n = upper.unicode_len();
    let mut out = String::new();
    let mut kept: usize = 0;
    let mut i: usize = 0;
    assert(upper@.take(0) =~= Seq::<char>::empty());
    while i < n
        invariant
            i <= n,
            n == upper@.len(),
            out@ == first_three(upper@.take(i as int)),
            kept == out@.len(),
            kept <= 3,
        decreases n - i,
    {
        let c = upper.get_char(i);
        proof {
            let t = upper@.take(i as int + 1);
            assert(t.drop_last() =~= upper@.take(i as int));
            assert(t.last() == c);
        }
        let u = c as u32;
        let alnum = (0x30 <= u && u <= 0x39) || (0x41 <= u && u <= 0x5a) || (0x61 <= u && u
            <= 0x7a);
        if kept < 3 && alnum {
            push_char(&mut out, c);
            kept += 1;
        }
        i += 1;
    }
    assert(upper@.take(n as int) =~= upper@);
    if kept == 0 {
        proof {
            reveal_strlit("PRD");
        }
        let r = String::from_str("PRD");
        assert(r@ =~= seq!['P', 'R', 'D']);
        return r;
    }
    let ghost base = out@;
    if kept == 1 {
        push_char(&mut out, 'X');
        push_char(&mut out, 'X');
        assert(out@ =~= base + seq!['X', 'X']);
    } else if kept == 2 {
        push_char(&mut out, 'X');
        assert(out@ =~= base + seq!['X']);
    }
    out
}

/// The product-code prefix of a category.
pub fn normalize_prefix_from_category(category: Option<&str>) -> (r: String)
    ensures
        r@ == prefix_of(
            match category {
                Some(c) => Some(c@),
                None => None,
            },
        ),
        r@.len() == 3,
{
    let raw: &str = match category {
        Some(c) => c,
        None => "",
    };
    proof {
        reveal_strlit("");
        if category is None {
            assert(raw@ =~= Seq::<char>::empty());
        }
    }
    let p = make_plain(trim(raw));
    let up = to_upper(p.as_str());
    prefix_from_upper(up.as_str())
}

/// The number that a barcode counts as when the next barcode is chosen: the
/// number it starts with once trimmed, zero where it starts with no digit.
pub open spec fn barcode_number(barcode: Seq<char>) -> nat {
    leading_number(trimmed(barcode))
}

/// The highest barcode number among the first `n` products.
pub open spec fn highest_barcode(products: Seq<Product>, n: nat) -> nat
    decreases n,
{
    if n == 0 {
        0
    } else {
        let rest = highest_barcode(products, (n - 1) as nat);
        let own = barcode_number(products[n - 1].barcode@);
        if own > rest {
            own
        } else {
            rest
        }
    }
}

/// The number of the next barcode the ledger assigns: one more than the
/// highest barcode number, but at least 1000001.
pub open spec fn next_barcode_number(products: Seq<Product>) -> nat {
    let m = highest_barcode(products, products.len());
    if m >= 1_000_001 {
        m + 1
    } else {
        1_000_001
    }
}

/// Chooses the next barcode: the decimal digits of the next barcode number.
/// It is refused where that number leaves the 64-bit range.
pub fn next_barcode(products: &Vec<Product>) -> (r: Result<String, LedgerError>)
    ensures
        match r {
            Ok(b) => b@ == decimal(next_barcode_number(products@)) && next_barcode_number(
                products@,
            ) <= i64::MAX,
            Err(e) => e@ == ErrorView::OutOfRange && next_barcode_number(products@) > i64::MAX,
        },
{
    let cap: u64 = 0x7fff_ffff_ffff_ffff;
    let mut top: u64 = 0;
    let mut i: usize = 0;
    while i < products.len()
        invariant
            i <= products.len(),
            cap == 0x7fff_ffff_ffff_ffff,
            top == if highest_barcode(products@, i as nat) > cap {
                cap as nat
            } else {
                highest_barcode(products@, i as nat)
            },
        decreases products.len() - i,
    {
        let t = trim(products[i].barcode.as_str());
        assert(t@.skip(0) =~= t@);
        let own = read_number(t, 0, cap);
        if own > top {
            top = own;
        }
        i += 1;
    }
    if top >= cap {
        return Err(LedgerError::OutOfRange);
    }
    let next: u64 = if top >= 1_000_001 {
        top + 1
    } else {
        1_000_001
    };
    let mut out = String::new();
    push_decimal(&mut out, next);
    assert(out@ =~= decimal(next as nat));
    Ok(out)
}

/// An ASCII letter in upper case; any other character as it is.
pub open spec fn folded(c: char) -> char {
    let u = c as u32;
    if 0x61 <= u <= 0x7a {
        ((u - 0x20) as u8) as char
    } else {
        c
    }
}

/// Whether a text starts with a prefix, the case of ASCII letters aside.
pub open spec fn starts_with_folded(s: Seq<char>, prefix: Seq<char>) -> bool {
    &&& prefix.len() <= s.len()
    &&& forall|i: int| 0 <= i < prefix.len() ==> folded(#[trigger] s[i]) == folded(prefix[i])
}

/// The sequence number that a product code carries under a prefix: the
/// number that follows the prefix, for a code that, once trimmed, starts with
/// the prefix and has at least three more characters; none for any other
/// code.
pub open spec fn code_number(code: Seq<char>, prefix: Seq<char>) -> Option<nat> {
    let t = trimmed(code);
    if t.len() >= prefix.len() + 3 && starts_with_folded(t, prefix) {
        Some(leading_number(t.skip(prefix.len() as int)))
    } else {
        None
    }
}

/// The sequence number that a product contributes under a prefix; zero for a
/// product without a code or with a code of another shape.
pub open spec fn own_code_number(p: Product, prefix: Seq<char>) -> nat {
    match p.product_code {
        Some(c) => match code_number(c@, prefix) {
            Some(n) => n,
            None => 0,
        },
        None => 0,
    }
}

/// The highest sequence number under a prefix among the first `n` products.
pub open spec fn highest_code(products: Seq<Product>, prefix: Seq<char>, n: nat) -> nat
    decreases n,
{
    if n == 0 {
        0
    } else {
        let rest = highest_code(products, prefix, (n - 1) as nat);
        let own = own_code_number(products[n - 1], prefix);
        if own > rest {
            own
        } else {
            rest
        }
    }
}

/// Three decimal digits of a number below one thousand.
pub open spec fn three_digit_text(n: int) -> Seq<char> {
    seq![digit_char(n / 100), digit_char(n / 10 % 10), digit_char(n % 10)]
}

/// An ASCII letter in upper case; any other character as it is.
pub fn fold_char(c: char) -> (r: char)
    ensures
        r == folded(c),
{
    let u = c as u32;
    if 0x61 <= u && u <= 0x7a {
        ((u - 0x20) as u8) as char
    } else {
        c
    }
}

fn has_prefix_folded(s: &str, prefix: &str) -> (r: bool)
    ensures
        r == starts_with_folded(s@, prefix@),
{
    let n = prefix.unicode_len();
    if s.unicode_len() < n {
        return false;
    }
    let mut i: usize = 0;
    while i < n
        invariant
            i <= n,
            n == prefix@.len(),
            n <= s@.len(),
            forall|j: int| 0 <= j < i ==> folded(#[trigger] s@[j]) == folded(prefix@[j]),
        decreases n - i,
    {
        if fold_char(s.get_char(i)) != fold_char(prefix.get_char(i)) {
            return false;
        }
        i += 1;
    }
    true
}

/// Chooses the next product code under a prefix: the prefix followed by the
/// three digits of one more than the highest sequence number under it. It is
/// refused where that number is above 999.
pub fn next_product_code_for_prefix(products: &Vec<Product>, prefix: &str) -> (r: Result<
    String,
    LedgerError,
>)
    ensures
        match r {
            Ok(c) => highest_code(products@, prefix@, products@.len()) < 999 && c@ == prefix@
                + three_digit_text(highest_code(products@, prefix@, products@.len()) as int + 1),
            Err(e) => e@ == (ErrorView::CodeSpaceExhausted { prefix: prefix@ }) && highest_code(
                products@,
                prefix@,
                products@.len(),
            ) >= 999,
        },
{
    let plen = prefix.unicode_len();
    let mut top: u64 = 0;
    let mut i: usize = 0;
    while i < products.len()
        invariant
            i <= products.len(),
            plen == prefix@.len(),
            top == if highest_code(products@, prefix@, i as nat) > 1000 {
                1000nat
            } else {
                highest_code(products@, prefix@, i as nat)
            },
        decreases products.len() - i,
    {
        let own: u64 = match &products[i].product_code {
            None => 0,
            Some(c) => {
                let t = trim(c.as_str());
                let tl = t.unicode_len();
                if tl >= plen && tl - plen >= 3 && has_prefix_folded(t, prefix) {
                    read_number(t, plen, 1000)
                } else {
                    0
                }
            },
        };
        if own > top {
            top = own;
        }
        i += 1;
    }
    if top >= 999 {
        return Err(LedgerError::CodeSpaceExhausted { prefix: prefix.to_owned() });
    }
    let next = (top + 1) as u16;
    let mut out = String::from_str(prefix);
    out.append(digit_text((next / 100) as u8));
    out.append(digit_text((next / 10 % 10) as u8));
    out.append(digit_text((next % 10) as u8));
    assert(out@ =~= prefix@ + three_digit_text(next as int));
    Ok(out)
}

/// A product to create, as the caller sends it.
#[derive(Debug)]
pub struct AddProductPayload {
    /// The barcode; where it is missing or blank the ledger assigns one.
    pub barcode: Option<String>,
    /// The product code; where it is missing or blank the ledger assigns one.
    pub product_code: Option<String>,
    pub category: Option<String>,
    pub name: String,
    pub color: Option<String>,
    pub size: Option<String>,
    pub buy_price: Option<i64>,
    pub sell_price: i64,
    /// The opening value of the mirror counter; by default the sum of the two
    /// opening counts.
    pub stock: Option<i64>,
    pub magaza_baslangic: Option<i64>,
    pub depo_baslangic: Option<i64>,
}

/// The barcode and the product code of a product that was created.
#[derive(Debug)]
pub struct CreatedProduct {
    pub barcode: String,
    pub product_code: Option<String>,
}

/// An optional text as it is stored: trimmed, and none where it is missing or
/// blank.
pub open spec fn stored_text(o: Option<String>) -> Option<Seq<char>> {
    match o {
        Some(v) => if trimmed(v@).len() == 0 {
            None
        } else {
            Some(trimmed(v@))
        },
        None => None,
    }
}

/// A product code as it is stored: trimmed, folded to upper case, without
/// hyphens.
pub open spec fn code_stored(code: Seq<char>) -> Seq<char> {
    without_hyphens(uppercase_of(trimmed(code)))
}

/// An optional number, zero where it is missing.
pub open spec fn or_zero(o: Option<i64>) -> int {
    match o {
        Some(v) => v as int,
        None => 0,
    }
}

/// The barcode of the new product: the one sent, trimmed, or the next one the
/// ledger assigns.
pub open spec fn barcode_chosen(products: Seq<Product>, payload: &AddProductPayload) -> Seq<char> {
    match stored_text(payload.barcode) {
        Some(b) => b,
        None => decimal(next_barcode_number(products)),
    }
}

/// The product code of the new product: the one sent, as it is stored, or the
/// next one under the prefix of the category.
pub open spec fn code_chosen(products: Seq<Product>, payload: &AddProductPayload) -> Seq<char> {
    match stored_text(payload.product_code) {
        Some(c) => code_stored(c),
        None => {
            let prefix = prefix_of(stored_text(payload.category));
            prefix + three_digit_text(highest_code(products, prefix, products.len()) as int + 1)
        },
    }
}

/// The opening value of the mirror counter.
pub open spec fn opening_mirror(payload: &AddProductPayload) -> int {
    match payload.stock {
        Some(v) => v as int,
        None => or_zero(payload.magaza_baslangic) + or_zero(payload.depo_baslangic),
    }
}

/// Why a product cannot be created. The checks are made in this order: the
/// name; the barcode to assign; the product code to assign; the opening
/// counts; the opening mirror; the barcode against the products that exist.
pub open spec fn product_refused(
    products: Seq<Product>,
    payload: &AddProductPayload,
    e: ErrorView,
) -> bool {
    if trimmed(payload.name@).len() == 0 {
        e == (ErrorView::FieldRequired { field: "Ürün adı"@ })
    } else if stored_text(payload.barcode) is None && next_barcode_number(products) > i64::MAX {
        e == ErrorView::OutOfRange
    } else if stored_text(payload.product_code) is None && highest_code(
        products,
        prefix_of(stored_text(payload.category)),
        products.len(),
    ) >= 999 {
        e == (ErrorView::CodeSpaceExhausted { prefix: prefix_of(stored_text(payload.category)) })
    } else if or_zero(payload.magaza_baslangic) < 0 || or_zero(payload.depo_baslangic) < 0 {
        e == ErrorView::NegativeStock
    } else if !(i64::MIN <= opening_mirror(payload) <= i64::MAX) {
        e == ErrorView::OutOfRange
    } else {
        e == (ErrorView::DuplicateBarcode { barcode: barcode_chosen(products, payload) })
            && has_barcode(products, barcode_chosen(products, payload))
    }
}

/// What a created product leaves behind: one more product row, active, with
/// its counters at their opening values.
pub open spec fn product_added(
    pre: &Ledger,
    post: &Ledger,
    payload: &AddProductPayload,
    now: &Moment,
    res: &CreatedProduct,
) -> bool {
    let p = post.products@.last();
    &&& trimmed(payload.name@).len() > 0
    &&& !has_barcode(pre.products@, barcode_chosen(pre.products@, payload))
    &&& post.products@.len() == pre.products@.len() + 1
    &&& post.products@.drop_last() == pre.products@
    &&& p.barcode@ == barcode_chosen(pre.products@, payload)
    &&& text_of(p.product_code) == Some(code_chosen(pre.products@, payload))
    &&& text_of(p.category) == stored_text(payload.category)
    &&& p.name@ == trimmed(payload.name@)
    &&& text_of(p.color) == stored_text(payload.color)
    &&& text_of(p.size) == stored_text(payload.size)
    &&& p.buy_price == or_zero(payload.buy_price)
    &&& p.sell_price == payload.sell_price
    &&& p.created_at == Some(now.at)
    &&& p.stock == opening_mirror(payload)
    &&& p.magaza_baslangic == or_zero(payload.magaza_baslangic)
    &&& p.depo_baslangic == or_zero(payload.depo_baslangic)
    &&& p.magaza_stok == or_zero(payload.magaza_baslangic)
    &&& p.depo_stok == or_zero(payload.depo_baslangic)
    &&& p.is_active
    &&& res.barcode@ == p.barcode@
    &&& text_of(res.product_code) == text_of(p.product_code)
    &&& post.same_sales(pre)
    &&& post.same_returns(pre)
    &&& post.same_transfers(pre)
    &&& post.same_expenses(pre)
}

/// Stores a product code: trims it, folds it to upper case and removes its
/// hyphens.
pub fn store_code(code: &str) -> (r: String)
    ensures
        r@ == code_stored(code@),
{
    let up = to_upper(trim(code));
    strip_hyphens(up.as_str())
}

/// Creates a product. Where no barcode is sent the ledger assigns the next
/// numeric one; where no product code is sent it assigns the next one under
/// the prefix of the category.
pub fn add_product(ledger: &mut Ledger, payload: AddProductPayload, now: &Moment) -> (r: Result<
    CreatedProduct,
    LedgerError,
>)
    requires
        old(ledger).wf(),
    ensures
        final(ledger).wf(),
        match r {
            Ok(res) => product_added(old(ledger), final(ledger), &payload, now, &res),
            Err(e) => *final(ledger) == *old(ledger) && product_refused(
                old(ledger).products@,
                &payload,
                e@,
            ),
        },
{
    let name = match norm_req("Ürün adı", payload.name.as_str()) {
        Ok(n) => n,
        Err(e) => {
            return Err(e);
        },
    };
    let barcode = match norm_opt(payload.barcode.clone()) {
        Some(b) => b,
        None => match next_barcode(&ledger.products) {
            Ok(b) => b,
            Err(e) => {
                return Err(e);
            },
        },
    };
    let category = norm_opt(payload.category.clone());
    let color = norm_opt(payload.color.clone());
    let size = norm_opt(payload.size.clone());
    assert(text_of(category) == stored_text(payload.category));
    let code = match norm_opt(payload.product_code.clone()) {
        Some(c) => store_code(c.as_str()),
        None => {
            let prefix = match &category {
                Some(c) => normalize_prefix_from_category(Some(c.as_str())),
                None => normalize_prefix_from_category(None),
            };
            match next_product_code_for_prefix(&ledger.products, prefix.as_str()) {
                Ok(c) => c,
                Err(e) => {
                    return Err(e);
                },
            }
        },
    };
    let mb = match payload.magaza_baslangic {
        Some(v) => v,
        None => 0,
    };
    let db = match payload.depo_baslangic {
        Some(v) => v,
        None => 0,
    };
    if mb < 0 || db < 0 {
        return Err(LedgerError::NegativeStock);
    }
    let st = match payload.stock {
        Some(v) => v,
        None => {
            let wide: i128 = mb as i128 + db as i128;
            if wide > i64::MAX as i128 {
                return Err(LedgerError::OutOfRange);
            }
            wide as i64
        },
    };
    if find_product(&ledger.products, &barcode).is_some() {
        return Err(LedgerError::DuplicateBarcode { barcode });
    }
    let res = CreatedProduct { barcode: barcode.clone(), product_code: Some(code.clone()) };
    let bp = match payload.buy_price {
        Some(v) => v,
        None => 0,
    };
    let ghost before = ledger.products@;
    ledger.products.push(
        Product {
            barcode,
            product_code: Some(code),
            category,
            name,
            color,
            size,
            buy_price: bp,
            sell_price: payload.sell_price,
            created_at: Some(now.at),
            stock: st,
            magaza_baslangic: mb,
            depo_baslangic: db,
            magaza_stok: mb,
            depo_stok: db,
            is_active: true,
        },
    );
    proof {
        assert(ledger.products@.drop_last() =~= before);
        assert(unique_barcodes(ledger.products@)) by {
            assert forall|i: int, j: int| 0 <= i < j < ledger.products@.len() implies (
            #[trigger] ledger.products@[i]).barcode@ != (#[trigger] ledger.products@[j]).barcode@ by {
                if j < before.len() {
                    assert(before[i].barcode@ != before[j].barcode@);
                } else {
                    assert(ledger.products@[i] == before[i]);
                }
            }
        }
    }
    Ok(res)
}

/// What can change of a product, as the caller sends it.
#[derive(Debug)]
pub struct UpdateProductPayload {
    pub barcode: String,
    /// The new product code; where it is missing or blank the code stays.
    pub product_code: Option<String>,
    pub category: Option<String>,
    pub name: String,
    pub color: Option<String>,
    pub size: Option<String>,
    pub buy_price: Option<i64>,
    pub sell_price: i64,
}

/// The product code after an update: the new one as it is stored, or the old
/// one where none is sent.
pub open spec fn code_after(old_code: Option<String>, payload: &UpdateProductPayload) -> Option<
    Seq<char>,
> {
    match stored_text(payload.product_code) {
        Some(c) => Some(code_stored(c)),
        None => text_of(old_code),
    }
}

/// What an update of a product leaves behind: where an active product carries
/// the barcode, its descriptive fields and prices are replaced and one row is
/// reported; otherwise nothing changes and no row is reported.
pub open spec fn product_updated(
    pre: &Ledger,
    post: &Ledger,
    payload: &UpdateProductPayload,
    changed: i64,
) -> bool {
    let bc = trimmed(payload.barcode@);
    &&& bc.len() > 0
    &&& trimmed(payload.name@).len() > 0
    &&& post.same_sales(pre)
    &&& post.same_returns(pre)
    &&& post.same_transfers(pre)
    &&& post.same_expenses(pre)
    &&& if has_barcode(pre.products@, bc) && pre.products@[position(pre.products@, bc)].is_active {
        let i = position(pre.products@, bc);
        let p = pre.products@[i];
        let q = post.products@[i];
        &&& changed == 1
        &&& post.products@.len() == pre.products@.len()
        &&& forall|j: int|
            0 <= j < pre.products@.len() && j != i ==> #[trigger] post.products@[j]
                == pre.products@[j]
        &&& q.barcode == p.barcode
        &&& text_of(q.product_code) == code_after(p.product_code, payload)
        &&& text_of(q.category) == stored_text(payload.category)
        &&& q.name@ == trimmed(payload.name@)
        &&& text_of(q.color) == stored_text(payload.color)
        &&& text_of(q.size) == stored_text(payload.size)
        &&& q.buy_price == or_zero(payload.buy_price)
        &&& q.sell_price == payload.sell_price
        &&& q.created_at == p.created_at
        &&& q.stock == p.stock
        &&& q.magaza_baslangic == p.magaza_baslangic
        &&& q.depo_baslangic == p.depo_baslangic
        &&& q.magaza_stok == p.magaza_stok
        &&& q.depo_stok == p.depo_stok
        &&& q.is_active
    } else {
        changed == 0 && post.products == pre.products
    }
}

/// Changes the descriptive fields and the prices of the active product with
/// the given barcode, and reports the number of rows changed. A blank barcode
/// and a blank name are refused.
pub fn update_product(ledger: &mut Ledger, payload: UpdateProductPayload) -> (r: Result<
    i64,
    LedgerError,
>)
    requires
        old(ledger).wf(),
    ensures
        final(ledger).wf(),
        match r {
            Ok(changed) => product_updated(old(ledger), final(ledger), &payload, changed),
            Err(e) => *final(ledger) == *old(ledger) && if trimmed(payload.barcode@).len() == 0 {
                e@ == (ErrorView::FieldRequired { field: "Barkod"@ })
            } else {
                e@ == (ErrorView::FieldRequired { field: "Ürün adı"@ }) && trimmed(
                    payload.name@,
                ).len() == 0
            },
        },
{
    let bc = match norm_req("Barkod", payload.barcode.as_str()) {
        Ok(b) => b,
        Err(e) => {
            return Err(e);
        },
    };
    let name = match norm_req("Ürün adı", payload.name.as_str()) {
        Ok(n) => n,
        Err(e) => {
            return Err(e);
        },
    };
    let code = match norm_opt(payload.product_code.clone()) {
        Some(c) => Some(store_code(c.as_str())),
        None => None,
    };
    let category = norm_opt(payload.category.clone());
    let color = norm_opt(payload.color.clone());
    let size = norm_opt(payload.size.clone());
    let bp = match payload.buy_price {
        Some(v) => v,
        None => 0,
    };
    let i = match find_product(&ledger.products, &bc) {
        Some(i) => i,
        None => {
            return Ok(0);
        },
    };
    if !ledger.products[i].is_active {
        return Ok(0);
    }
    if code.is_some() {
        ledger.products[i].product_code = code;
    }
    ledger.products[i].category = category;
    ledger.products[i].name = name;
    ledger.products[i].color = color;
    ledger.products[i].size = size;
    ledger.products[i].buy_price = bp;
    ledger.products[i].sell_price = payload.sell_price;
    proof {
        crate::ledger::lemma_lines_stay_sound(
            ledger.sales@,
            ledger.transfers@,
            old(ledger).products@,
            ledger.products@,
        );
        assert(unique_barcodes(ledger.products@)) by {
            assert forall|a: int, b: int| 0 <= a < b < ledger.products@.len() implies (
            #[trigger] ledger.products@[a]).barcode@ != (#[trigger] ledger.products@[b]).barcode@ by {
                assert(old(ledger).products@[a].barcode@ != old(ledger).products@[b].barcode@);
            }
        }
        assert(crate::stock::stocks_nonnegative(ledger.products@)) by {
            assert forall|a: int| 0 <= a < ledger.products@.len() implies (
            #[trigger] ledger.products@[a]).magaza_stok >= 0 && ledger.products@[a].depo_stok
                >= 0 by {
                assert(old(ledger).products@[a].magaza_stok >= 0);
            }
        }
    }
    Ok(1)
}

/// Whether some history line names the barcode: a sale line, a return line,
/// an exchange line or a transfer line.
pub open spec fn is_referenced(l: &Ledger, barcode: Seq<char>) -> bool {
    ||| exists|i: int| 0 <= i < l.sales@.len() && (#[trigger] l.sales@[i]).product_barcode@ == barcode
    ||| exists|i: int|
        0 <= i < l.return_items@.len() && (#[trigger] l.return_items@[i]).product_barcode@
            == barcode
    ||| exists|i: int|
        0 <= i < l.exchange_items@.len() && (#[trigger] l.exchange_items@[i]).product_barcode@
            == barcode
    ||| exists|i: int|
        0 <= i < l.transfers@.len() && (#[trigger] l.transfers@[i]).product_barcode@ == barcode
}

fn named_in_sales(rows: &Vec<SaleRecord>, barcode: &String) -> (r: bool)
    ensures
        r == exists|i: int|
            0 <= i < rows@.len() && (#[trigger] rows@[i]).product_barcode@ == barcode@,
{
    let mut i: usize = 0;
    while i < rows.len()
        invariant
            i <= rows.len(),
            forall|j: int| 0 <= j < i ==> (#[trigger] rows@[j]).product_barcode@ != barcode@,
        decreases rows.len() - i,
    {
        if rows[i].product_barcode == *barcode {
            return true;
        }
        i += 1;
    }
    false
}

fn named_in_return_items(rows: &Vec<ReturnItem>, barcode: &String) -> (r: bool)
    ensures
        r == exists|i: int|
            0 <= i < rows@.len() && (#[trigger] rows@[i]).product_barcode@ == barcode@,
{
    let mut i: usize = 0;
    while i < rows.len()
        invariant
            i <= rows.len(),
            forall|j: int| 0 <= j < i ==> (#[trigger] rows@[j]).product_barcode@ != barcode@,
        decreases rows.len() - i,
    {
        if rows[i].product_barcode == *barcode {
            return true;
        }
        i += 1;
    }
    false
}

fn named_in_exchange_items(rows: &Vec<ExchangeItem>, barcode: &String) -> (r: bool)
    ensures
        r == exists|i: int|
            0 <= i < rows@.len() && (#[trigger] rows@[i]).product_barcode@ == barcode@,
{
    let mut i: usize = 0;
    while i < rows.len()
        invariant
            i <= rows.len(),
            forall|j: int| 0 <= j < i ==> (#[trigger] rows@[j]).product_barcode@ != barcode@,
        decreases rows.len() - i,
    {
        if rows[i].product_barcode == *barcode {
            return true;
        }
        i += 1;
    }
    false
}

fn named_in_transfers(rows: &Vec<TransferRecord>, barcode: &String) -> (r: bool)
    ensures
        r == exists|i: int|
            0 <= i < rows@.len() && (#[trigger] rows@[i]).product_barcode@ == barcode@,
{
    let mut i: usize = 0;
    while i < rows.len()
        invariant
            i <= rows.len(),
            forall|j: int| 0 <= j < i ==> (#[trigger] rows@[j]).product_barcode@ != barcode@,
        decreases rows.len() - i,
    {
        if rows[i].product_barcode == *barcode {
            return true;
        }
        i += 1;
    }
    false
}

/// What the removal of a product leaves behind. A product that no history
/// line names is removed from the ledger. A product that the history names
/// stays: it is retired, and its counters are set to zero. Either way one row
/// is reported; for a barcode that no product carries nothing changes and no
/// row is reported.
pub open spec fn product_deleted(pre: &Ledger, post: &Ledger, barcode: Seq<char>, n: i64) -> bool {
    &&& post.same_sales(pre)
    &&& post.same_returns(pre)
    &&& post.same_transfers(pre)
    &&& post.same_expenses(pre)
    &&& if !has_barcode(pre.products@, barcode) {
        n == 0 && post.products == pre.products
    } else {
        let i = position(pre.products@, barcode);
        n == 1 && if is_referenced(pre, barcode) {
            &&& post.products@.len() == pre.products@.len()
            &&& forall|j: int|
                0 <= j < pre.products@.len() && j != i ==> #[trigger] post.products@[j]
                    == pre.products@[j]
            &&& post.products@[i] == (Product {
                is_active: false,
                stock: 0,
                magaza_stok: 0,
                depo_stok: 0,
                ..pre.products@[i]
            })
        } else {
            post.products@ == pre.products@.remove(i)
        }
    }
}

/// Removes a product: from the ledger where no history line names it, from
/// use where the history names it.
pub fn delete_product(ledger: &mut Ledger, barcode: &String) -> (n: i64)
    requires
        old(ledger).wf(),
    ensures
        final(ledger).wf(),
        product_deleted(old(ledger), final(ledger), barcode@, n),
{
    let i = match find_product(&ledger.products, barcode) {
        Some(i) => i,
        None => {
            return 0;
        },
    };
    let referenced = named_in_sales(&ledger.sales, barcode) || named_in_return_items(
        &ledger.return_items,
        barcode,
    ) || named_in_exchange_items(&ledger.exchange_items, barcode) || named_in_transfers(
        &ledger.transfers,
        barcode,
    );
    if referenced {
        ledger.products[i].is_active = false;
        ledger.products[i].stock = 0;
        ledger.products[i].magaza_stok = 0;
        ledger.products[i].depo_stok = 0;
        proof {
            crate::ledger::lemma_lines_stay_sound(
                ledger.sales@,
                ledger.transfers@,
                old(ledger).products@,
                ledger.products@,
            );
            assert(unique_barcodes(ledger.products@)) by {
                assert forall|a: int, b: int| 0 <= a < b < ledger.products@.len() implies (
                #[trigger] ledger.products@[a]).barcode@ != (
                #[trigger] ledger.products@[b]).barcode@ by {
                    assert(old(ledger).products@[a].barcode@ != old(ledger).products@[b].barcode@);
                }
            }
            assert(crate::stock::stocks_nonnegative(ledger.products@)) by {
                assert forall|a: int| 0 <= a < ledger.products@.len() implies (
                #[trigger] ledger.products@[a]).magaza_stok >= 0 && ledger.products@[a].depo_stok
                    >= 0 by {
                    assert(old(ledger).products@[a].magaza_stok >= 0);
                }
            }
        }
    } else {
        let _ = ledger.products.remove(i);
        proof {
            let before = old(ledger).products@;
            let after = ledger.products@;
            assert(after == before.remove(i as int));
            assert(unique_barcodes(after)) by {
                assert forall|a: int, b: int| 0 <= a < b < after.len() implies (
                #[trigger] after[a]).barcode@ != (#[trigger] after[b]).barcode@ by {
                    let a2 = if a < i { a } else { a + 1 };
                    let b2 = if b < i { b } else { b + 1 };
                    assert(after[a] == before[a2] && after[b] == before[b2]);
                    assert(before[a2].barcode@ != before[b2].barcode@);
                }
            }
            assert(crate::stock::stocks_nonnegative(after)) by {
                assert forall|a: int| 0 <= a < after.len() implies (#[trigger] after[a]).magaza_stok
                    >= 0 && after[a].depo_stok >= 0 by {
                    let a2 = if a < i { a } else { a + 1 };
                    assert(after[a] == before[a2]);
                }
            }
            assert forall|bc: Seq<char>| has_barcode(before, bc) && bc != barcode@ implies has_barcode(
                after,
                bc,
            ) by {
                let j = position(before, bc);
                let j2 = if j < i { j } else { j - 1 };
                assert(after[j2] == before[j]);
            }
            assert(crate::ledger::sales_sound(ledger.sales@, after)) by {
                assert forall|a: int| 0 <= a < ledger.sales@.len() implies (
                #[trigger] ledger.sales@[a]).qty >= 1 && has_barcode(
                    after,
                    ledger.sales@[a].product_barcode@,
                ) by {
                    assert(has_barcode(before, ledger.sales@[a].product_barcode@));
                }
            }
            assert(crate::ledger::transfers_sound(ledger.transfers@, after)) by {
                assert forall|a: int| 0 <= a < ledger.transfers@.len() implies (
                #[trigger] ledger.transfers@[a]).qty >= 1 && has_barcode(
                    after,
                    ledger.transfers@[a].product_barcode@,
                ) by {
                    assert(has_barcode(before, ledger.transfers@[a].product_barcode@));
                }
            }
        }
    }
    1
}

/// Looks a product up by its barcode, whether it is active or not.
pub fn find_product_by_barcode(ledger: &Ledger, barcode: &String) -> (r: Option<Product>)
    requires
        ledger.readable(),
    ensures
        match r {
            Some(p) => has_barcode(ledger.products@, barcode@) && p == ledger.products@[position(
                ledger.products@,
                barcode@,
            )],
            None => !has_barcode(ledger.products@, barcode@),
        },
{
    match find_product(&ledger.products, barcode) {
        Some(i) => Some(ledger.products[i].duplicate()),
        None => None,
    }
}

/// The key that products are listed by: the number their barcode starts
/// with, capped at the largest `i64`.
pub open spec fn listing_key(p: Product) -> i128 {
    if leading_number(p.barcode@) > i64::MAX {
        i64::MAX as i128
    } else {
        leading_number(p.barcode@) as i128
    }
}

/// The keys of all products.
pub open spec fn listing_keys(products: Seq<Product>) -> Seq<i128> {
    Seq::new(products.len(), |i: int| listing_key(products[i]))
}

/// The active products among the first `n` positions of an order.
pub open spec fn active_in(products: Seq<Product>, order: Seq<usize>, n: nat) -> Seq<Product>
    decreases n,
{
    if n == 0 {
        Seq::empty()
    } else {
        let rest = active_in(products, order, (n - 1) as nat);
        let p = products[order[n - 1] as int];
        if p.is_active {
            rest.push(p)
        } else {
            rest
        }
    }
}

/// Lists the active products, ordered by the number their barcode starts
/// with; products with the same number keep the order they were created in.
pub fn list_products(ledger: &Ledger) -> (r: Vec<Product>)
    ensures
        exists|order: Seq<usize>| #[trigger]
            orders(listing_keys(ledger.products@), order) && r@ == active_in(
                ledger.products@,
                order,
                order.len(),
            ),
{
    let mut keys: Vec<i128> = Vec::new();
    let mut i: usize = 0;
    while i < ledger.products.len()
        invariant
            i <= ledger.products.len(),
            keys@.len() == i,
            forall|j: int| 0 <= j < i ==> #[trigger] keys@[j] == listing_key(ledger.products@[j]),
        decreases ledger.products.len() - i,
    {
        let b = ledger.products[i].barcode.as_str();
        assert(b@.skip(0) =~= b@);
        keys.push(read_number(b, 0, 0x7fff_ffff_ffff_ffff) as i128);
        i += 1;
    }
    assert(keys@ =~= listing_keys(ledger.products@));
    let order = sorted_positions(&keys);
    let mut out: Vec<Product> = Vec::new();
    let mut k: usize = 0;
    while k < order.len()
        invariant
            k <= order.len(),
            orders(listing_keys(ledger.products@), order@),
            out@ == active_in(ledger.products@, order@, k as nat),
        decreases order.len() - k,
    {
        let p = &ledger.products[order[k]];
        if p.is_active {
            out.push(p.duplicate());
        }
        k += 1;
    }
    out
}

} // verus!

//! The stock ledger: products, their per-location counters, and the engine
//! that applies a batch of stock movements all-or-nothing.

use crate::clock::Timestamp;
use crate::error::{ErrorView, LedgerError};
use crate::kinds::Location;
use vstd::prelude::*;

verus! {

/// A product row. `magaza_stok` and `depo_stok` are the authoritative counters
/// of the store and of the warehouse; `stock` mirrors the sum of their
/// movements.
#[derive(Debug)]
pub struct Product {
    pub barcode: String,
    pub product_code: Option<String>,
    pub category: Option<String>,
    pub name: String,
    pub color: Option<String>,
    pub size: Option<String>,
    /// Purchase price, in minor units.
    pub buy_price: i64,
    /// Sale price, in minor units.
    pub sell_price: i64,
    pub created_at: Option<Timestamp>,
    pub stock: i64,
    pub magaza_baslangic: i64,
    pub depo_baslangic: i64,
    pub magaza_stok: i64,
    pub depo_stok: i64,
    pub is_active: bool,
}

/// One signed change of one location counter of one product.
#[derive(Debug)]
pub struct StockMove {
    pub barcode: String,
    pub location: Location,
    /// Units added (positive) or taken (negative).
    pub delta: i64,
    /// Whether the mirror counter `stock` moves along.
    pub mirrored: bool,
}

impl Product {
    /// The counter of one location.
    pub open spec fn at(self, loc: Location) -> int {
        match loc {
            Location::Store => self.magaza_stok as int,
            Location::Warehouse => self.depo_stok as int,
        }
    }

    /// The same row with other counters.
    pub open spec fn with_counters(self, store: int, warehouse: int, mirror: int) -> Product {
        Product {
            magaza_stok: store as i64,
            depo_stok: warehouse as i64,
            stock: mirror as i64,
            ..self
        }
    }

    /// Reads the counter of one location.
    pub fn count_at(&self, loc: Location) -> (n: i64)
        ensures
            n == self.at(loc),
    {
        match loc {
            Location::Store => self.magaza_stok,
            Location::Warehouse => self.depo_stok,
        }
    }

    /// A copy of the product row.
    pub fn duplicate(&self) -> (r: Product)
        ensures
            r == *self,
    {
        Product {
            barcode: self.barcode.clone(),
            product_code: self.product_code.clone(),
            category: self.category.clone(),
            name: self.name.clone(),
            color: self.color.clone(),
            size: self.size.clone(),
            buy_price: self.buy_price,
            sell_price: self.sell_price,
            created_at: self.created_at,
            stock: self.stock,
            magaza_baslangic: self.magaza_baslangic,
            depo_baslangic: self.depo_baslangic,
            magaza_stok: self.magaza_stok,
            depo_stok: self.depo_stok,
            is_active: self.is_active,
        }
    }
}

/// Some product carries this barcode.
pub open spec fn has_barcode(products: Seq<Product>, barcode: Seq<char>) -> bool {
    exists|i: int| 0 <= i < products.len() && #[trigger] products[i].barcode@ == barcode
}

/// The index of a product with this barcode, where there is one.
pub open spec fn position(products: Seq<Product>, barcode: Seq<char>) -> int {
    choose|i: int| 0 <= i < products.len() && #[trigger] products[i].barcode@ == barcode
}

/// No two products share a barcode.
pub open spec fn unique_barcodes(products: Seq<Product>) -> bool {
    forall|i: int, j: int|
        0 <= i < j < products.len() ==> #[trigger] products[i].barcode@
            != #[trigger] products[j].barcode@
}

/// The rows carry the same barcodes, position by position.
pub open spec fn same_barcodes(a: Seq<Product>, b: Seq<Product>) -> bool {
    &&& a.len() == b.len()
    &&& forall|i: int| 0 <= i < a.len() ==> (#[trigger] a[i]).barcode == b[i].barcode
}

/// A barcode that one of the rows carries is carried by rows with the same
/// barcodes.
pub proof fn lemma_barcode_kept(a: Seq<Product>, b: Seq<Product>, barcode: Seq<char>)
    requires
        same_barcodes(a, b),
        has_barcode(a, barcode),
    ensures
        has_barcode(b, barcode),
{
    let i = position(a, barcode);
    assert(b[i].barcode@ == barcode);
}

/// No location counter is negative.
pub open spec fn stocks_nonnegative(products: Seq<Product>) -> bool {
    forall|i: int|
        0 <= i < products.len() ==> (#[trigger] products[i]).magaza_stok >= 0
            && products[i].depo_stok >= 0
}

/// The net change that `moves` make to one location counter of one product.
pub open spec fn net(moves: Seq<StockMove>, barcode: Seq<char>, loc: Location) -> int
    decreases moves.len(),
{
    if moves.len() == 0 {
        0
    } else {
        let m = moves.last();
        net(moves.drop_last(), barcode, loc) + if m.barcode@ == barcode && m.location == loc {
            m.delta as int
        } else {
            0
        }
    }
}

/// The net change that `moves` make to the mirror counter of one product.
pub open spec fn net_mirror(moves: Seq<StockMove>, barcode: Seq<char>) -> int
    decreases moves.len(),
{
    if moves.len() == 0 {
        0
    } else {
        let m = moves.last();
        net_mirror(moves.drop_last(), barcode) + if m.barcode@ == barcode && m.mirrored {
            m.delta as int
        } else {
            0
        }
    }
}

/// A product row after all of `moves`.
pub open spec fn moved(p: Product, moves: Seq<StockMove>) -> Product {
    p.with_counters(
        p.magaza_stok + net(moves, p.barcode@, Location::Store),
        p.depo_stok + net(moves, p.barcode@, Location::Warehouse),
        p.stock + net_mirror(moves, p.barcode@),
    )
}

/// Every product row after all of `moves`.
pub open spec fn moved_all(products: Seq<Product>, moves: Seq<StockMove>) -> Seq<Product> {
    Seq::new(products.len(), |i: int| moved(products[i], moves))
}

/// What a refused decrement reports as requested: the units asked for.
pub open spec fn units_asked(delta: int) -> int {
    if -delta > i64::MAX {
        i64::MAX as int
    } else {
        -delta
    }
}

/// Why the move at index `k` cannot be applied once the moves before it have
/// been; `None` where it can. A move is refused when its product does not
/// exist, when it would take a location counter below zero, or when a counter
/// would leave the 64-bit range.
pub open spec fn refusal(products: Seq<Product>, moves: Seq<StockMove>, k: int) -> Option<
    ErrorView,
> {
    let m = moves[k];
    let before = moves.take(k);
    if !has_barcode(products, m.barcode@) {
        Some(ErrorView::ProductNotFound { barcode: m.barcode@ })
    } else {
        let p = products[position(products, m.barcode@)];
        let available = p.at(m.location) + net(before, m.barcode@, m.location);
        let mirror = p.stock + net_mirror(before, m.barcode@);
        if available + m.delta < 0 {
            Some(
                ErrorView::InsufficientStock {
                    barcode: m.barcode@,
                    location: m.location,
                    available,
                    requested: units_asked(m.delta as int),
                },
            )
        } else if available + m.delta > i64::MAX {
            Some(ErrorView::OutOfRange)
        } else if m.mirrored && !(i64::MIN <= mirror + m.delta <= i64::MAX) {
            Some(ErrorView::OutOfRange)
        } else {
            None
        }
    }
}

/// None of the first `n` moves is refused.
pub open spec fn accepted_upto(products: Seq<Product>, moves: Seq<StockMove>, n: int) -> bool {
    forall|k: int| 0 <= k < n ==> #[trigger] refusal(products, moves, k) is None
}

/// Every move is accepted.
pub open spec fn all_accepted(products: Seq<Product>, moves: Seq<StockMove>) -> bool {
    accepted_upto(products, moves, moves.len() as int)
}

/// The move at `k` is the first one refused, and `e` says why.
pub open spec fn first_refusal(
    products: Seq<Product>,
    moves: Seq<StockMove>,
    k: int,
    e: ErrorView,
) -> bool {
    &&& 0 <= k < moves.len()
    &&& accepted_upto(products, moves, k)
    &&& refusal(products, moves, k) == Some(e)
}

/// No moves change no counter.
pub proof fn lemma_net_empty(barcode: Seq<char>, loc: Location)
    ensures
        net(Seq::<StockMove>::empty(), barcode, loc) == 0,
        net_mirror(Seq::<StockMove>::empty(), barcode) == 0,
{
}

/// Taking one more move adds its delta to the counters it names, and to no
/// other.
pub proof fn lemma_net_step(moves: Seq<StockMove>, k: int, barcode: Seq<char>, loc: Location)
    requires
        0 <= k < moves.len(),
    ensures
        net(moves.take(k + 1), barcode, loc) == net(moves.take(k), barcode, loc) + if moves[k].barcode@
            == barcode && moves[k].location == loc {
            moves[k].delta as int
        } else {
            0
        },
        net_mirror(moves.take(k + 1), barcode) == net_mirror(moves.take(k), barcode)
            + if moves[k].barcode@ == barcode && moves[k].mirrored {
            moves[k].delta as int
        } else {
            0
        },
{
    let t = moves.take(k + 1);
    assert(t.drop_last() =~= moves.take(k));
    assert(t.last() == moves[k]);
}

/// With unique barcodes, a matching index is the position.
pub proof fn lemma_position(products: Seq<Product>, i: int)
    requires
        unique_barcodes(products),
        0 <= i < products.len(),
    ensures
        has_barcode(products, products[i].barcode@),
        position(products, products[i].barcode@) == i,
{
    let bc = products[i].barcode@;
    let j = position(products, bc);
    assert(0 <= j < products.len() && products[j].barcode@ == bc);
    if j < i {
        assert(products[j].barcode@ != products[i].barcode@);
    } else if i < j {
        assert(products[i].barcode@ != products[j].barcode@);
    }
}

/// The index of the product with this barcode.
pub fn find_product(products: &Vec<Product>, barcode: &String) -> (r: Option<usize>)
    ensures
        match r {
            Some(i) => i < products.len() && products[i as int].barcode@ == barcode@,
            None => !has_barcode(products@, barcode@),
        },
        unique_barcodes(products@) && r is Some ==> r->Some_0 == position(
            products@,
            barcode@,
        ),
        r is Some <==> has_barcode(products@, barcode@),
{
    let mut i: usize = 0;
    while i < products.len()
        invariant
            i <= products.len(),
            forall|j: int| 0 <= j < i ==> (#[trigger] products[j]).barcode@ != barcode@,
        decreases products.len() - i,
    {
        if products[i].barcode == *barcode {
            proof {
                if unique_barcodes(products@) {
                    lemma_position(products@, i as int);
                }
            }
            return Some(i);
        }
        i += 1;
    }
    None
}

/// A copy of the product rows.
pub fn duplicate_products(products: &Vec<Product>) -> (r: Vec<Product>)
    ensures
        r@ == products@,
{
    let mut out: Vec<Product> = Vec::new();
    let mut i: usize = 0;
    while i < products.len()
        invariant
            i <= products.len(),
            out@ == products@.take(i as int),
        decreases products.len() - i,
    {
        out.push(products[i].duplicate());
        assert(out@ =~= products@.take(i as int + 1));
        i += 1;
    }
    assert(products@.take(products.len() as int) =~= products@);
    out
}

/// After `moves`, every counter of every product is still a 64-bit integer
/// and no location counter is negative.
pub open spec fn counters_in_range(products: Seq<Product>, moves: Seq<StockMove>) -> bool {
    forall|j: int|
        0 <= j < products.len() ==> {
            let p = #[trigger] products[j];
            &&& 0 <= p.magaza_stok + net(moves, p.barcode@, Location::Store) <= i64::MAX
            &&& 0 <= p.depo_stok + net(moves, p.barcode@, Location::Warehouse) <= i64::MAX
            &&& i64::MIN <= p.stock + net_mirror(moves, p.barcode@) <= i64::MAX
        }
}

/// The units a refused decrement asked for, capped at the largest `i64`.
fn asked(delta: i64) -> (r: i64)
    ensures
        r == units_asked(delta as int),
{
    if delta == i64::MIN {
        i64::MAX
    } else {
        -delta
    }
}

/// Applies `moves` in order, all or nothing. Each move is checked against the
/// counters as the moves before it left them. If every move is accepted, all
/// are applied; if one is refused, no counter changes and the error is that of
/// the first refused move.
pub fn apply_moves(products: &mut Vec<Product>, moves: &Vec<StockMove>) -> (r: Result<
    (),
    LedgerError,
>)
    requires
        unique_barcodes(old(products)@),
        stocks_nonnegative(old(products)@),
    ensures
        match r {
            Ok(()) => {
                &&& all_accepted(old(products)@, moves@)
                &&& counters_in_range(old(products)@, moves@)
                &&& final(products)@ == moved_all(old(products)@, moves@)
            },
            Err(e) => {
                &&& *final(products) == *old(products)
                &&& exists|k: int| first_refusal(old(products)@, moves@, k, e@)
            },
        },
        unique_barcodes(final(products)@),
        stocks_nonnegative(final(products)@),
        same_barcodes(old(products)@, final(products)@),
{
    let ghost orig = products@;
    let mut work = duplicate_products(products);
    let mut k: usize = 0;
    proof {
        assert(moves@.take(0) =~= Seq::<StockMove>::empty());
        assert forall|j: int| 0 <= j < orig.len() implies work@[j] == moved(
            orig[j],
            moves@.take(0),
        ) by {
            lemma_net_empty(orig[j].barcode@, Location::Store);
            lemma_net_empty(orig[j].barcode@, Location::Warehouse);
        }
        assert(counters_in_range(orig, moves@.take(0))) by {
            assert forall|j: int| 0 <= j < orig.len() implies {
                let p = #[trigger] orig[j];
                &&& 0 <= p.magaza_stok + net(moves@.take(0), p.barcode@, Location::Store)
                    <= i64::MAX
                &&& 0 <= p.depo_stok + net(moves@.take(0), p.barcode@, Location::Warehouse)
                    <= i64::MAX
                &&& i64::MIN <= p.stock + net_mirror(moves@.take(0), p.barcode@) <= i64::MAX
            } by {
                lemma_net_empty(orig[j].barcode@, Location::Store);
                lemma_net_empty(orig[j].barcode@, Location::Warehouse);
            }
        }
    }
    while k < moves.len()
        invariant
            k <= moves.len(),
            *products == *old(products),
            products@ == orig,
            unique_barcodes(orig),
            stocks_nonnegative(orig),
            work@.len() == orig.len(),
            accepted_upto(orig, moves@, k as int),
            counters_in_range(orig, moves@.take(k as int)),
            forall|j: int|
                0 <= j < orig.len() ==> #[trigger] work@[j] == moved(orig[j], moves@.take(k as int)),
        decreases moves.len() - k,
    {
        let m = &moves[k];
        let ghost before = moves@.take(k as int);
        let found = find_product(&work, &m.barcode);
        proof {
            if has_barcode(orig, m.barcode@) {
                let i = position(orig, m.barcode@);
                assert(work@[i].barcode@ == m.barcode@);
            }
            if has_barcode(work@, m.barcode@) {
                let i = position(work@, m.barcode@);
                assert(work@[i] == moved(orig[i], before));
                assert(orig[i].barcode@ == m.barcode@);
            }
        }
        match found {
            None => {
                assert(refusal(orig, moves@, k as int) == Some(
                    ErrorView::ProductNotFound { barcode: m.barcode@ },
                ));
                let e = LedgerError::ProductNotFound { barcode: m.barcode.clone() };
                assert(first_refusal(orig, moves@, k as int, e@));
                return Err(e);
            },
            Some(i) => {
                proof {
                    assert(work@[i as int] == moved(orig[i as int], before));
                    assert(orig[i as int].barcode@ == m.barcode@);
                    lemma_position(orig, i as int);
                }
                let cur = work[i].count_at(m.location);
                let mirror = work[i].stock;
                assert(cur == orig[i as int].at(m.location) + net(before, m.barcode@, m.location));
                assert(mirror == orig[i as int].stock + net_mirror(before, m.barcode@));
                let next: i128 = cur as i128 + m.delta as i128;
                if next < 0 {
                    let e = LedgerError::InsufficientStock {
                        barcode: m.barcode.clone(),
                        location: m.location,
                        available: cur,
                        requested: asked(m.delta),
                    };
                    assert(first_refusal(orig, moves@, k as int, e@));
                    return Err(e);
                }
                if next > i64::MAX as i128 {
                    let e = LedgerError::OutOfRange;
                    assert(first_refusal(orig, moves@, k as int, e@));
                    return Err(e);
                }
                let mut next_mirror: i64 = mirror;
                if m.mirrored {
                    let wide: i128 = mirror as i128 + m.delta as i128;
                    if wide < i64::MIN as i128 || wide > i64::MAX as i128 {
                        let e = LedgerError::OutOfRange;
                        assert(first_refusal(orig, moves@, k as int, e@));
                        return Err(e);
                    }
                    next_mirror = wide as i64;
                }
                assert(refusal(orig, moves@, k as int) is None);
                match m.location {
                    Location::Store => {
                        work[i].magaza_stok = next as i64;
                    },
                    Location::Warehouse => {
                        work[i].depo_stok = next as i64;
                    },
                }
                work[i].stock = next_mirror;
                proof {
                    let after = moves@.take(k as int + 1);
                    assert forall|j: int| 0 <= j < orig.len() implies {
                        let p = #[trigger] orig[j];
                        &&& work@[j] == moved(p, after)
                        &&& 0 <= p.magaza_stok + net(after, p.barcode@, Location::Store)
                            <= i64::MAX
                        &&& 0 <= p.depo_stok + net(after, p.barcode@, Location::Warehouse)
                            <= i64::MAX
                        &&& i64::MIN <= p.stock + net_mirror(after, p.barcode@) <= i64::MAX
                    } by {
                        let p = orig[j];
                        lemma_net_step(moves@, k as int, p.barcode@, Location::Store);
                        lemma_net_step(moves@, k as int, p.barcode@, Location::Warehouse);
                        if j != i {
                            if j < i {
                                assert(orig[j].barcode@ != orig[i as int].barcode@);
                            } else {
                                assert(orig[i as int].barcode@ != orig[j].barcode@);
                            }
                        }
                    }
                }
            },
        }
        k += 1;
    }
    proof {
        assert(moves@.take(moves.len() as int) =~= moves@);
        assert(work@ =~= moved_all(orig, moves@));
        assert(unique_barcodes(work@)) by {
            assert forall|i: int, j: int| 0 <= i < j < work@.len() implies #[trigger] work@[i].barcode@
                != #[trigger] work@[j].barcode@ by {
                assert(orig[i].barcode@ != orig[j].barcode@);
            }
        }
        assert(stocks_nonnegative(work@)) by {
            assert forall|i: int| 0 <= i < work@.len() implies (#[trigger] work@[i]).magaza_stok
                >= 0 && work@[i].depo_stok >= 0 by {
                assert(0 <= orig[i].magaza_stok + net(moves@, orig[i].barcode@, Location::Store));
            }
        }
    }
    *products = work;
    Ok(())
}

/// No move adds units.
pub open spec fn only_takes(moves: Seq<StockMove>) -> bool {
    forall|i: int| 0 <= i < moves.len() ==> (#[trigger] moves[i]).delta <= 0
}

/// Moves that only take leave every prefix with a net change of at most zero.
pub proof fn lemma_takes_nonpositive(
    moves: Seq<StockMove>,
    k: int,
    barcode: Seq<char>,
    loc: Location,
)
    requires
        only_takes(moves),
        0 <= k <= moves.len(),
    ensures
        net(moves.take(k), barcode, loc) <= 0,
        net_mirror(moves.take(k), barcode) <= 0,
    decreases k,
{
    if k == 0 {
        assert(moves.take(0) =~= Seq::<StockMove>::empty());
    } else {
        lemma_takes_nonpositive(moves, k - 1, barcode, loc);
        lemma_net_step(moves, k - 1, barcode, loc);
    }
}

/// Moves that only take never leave a prefix below the net change of the
/// whole batch.
pub proof fn lemma_takes_monotone(moves: Seq<StockMove>, k: int, barcode: Seq<char>, loc: Location)
    requires
        only_takes(moves),
        0 <= k <= moves.len(),
    ensures
        net(moves, barcode, loc) <= net(moves.take(k), barcode, loc),
        net_mirror(moves, barcode) <= net_mirror(moves.take(k), barcode),
    decreases moves.len() - k,
{
    if k == moves.len() {
        assert(moves.take(k) =~= moves);
    } else {
        lemma_takes_monotone(moves, k + 1, barcode, loc);
        lemma_net_step(moves, k, barcode, loc);
    }
}

/// No move takes units.
pub open spec fn only_gives(moves: Seq<StockMove>) -> bool {
    forall|i: int| 0 <= i < moves.len() ==> (#[trigger] moves[i]).delta >= 0
}

/// Moves that only give leave every prefix with a net change of at least
/// zero and at most that of the whole batch.
pub proof fn lemma_gives_monotone(moves: Seq<StockMove>, k: int, barcode: Seq<char>, loc: Location)
    requires
        only_gives(moves),
        0 <= k <= moves.len(),
    ensures
        0 <= net(moves.take(k), barcode, loc) <= net(moves, barcode, loc),
        0 <= net_mirror(moves.take(k), barcode) <= net_mirror(moves, barcode),
    decreases moves.len() - k,
{
    lemma_gives_nonnegative(moves, k, barcode, loc);
    if k == moves.len() {
        assert(moves.take(k) =~= moves);
    } else {
        lemma_gives_monotone(moves, k + 1, barcode, loc);
        lemma_net_step(moves, k, barcode, loc);
    }
}

/// Moves that only give leave every prefix with a net change of at least
/// zero.
pub proof fn lemma_gives_nonnegative(
    moves: Seq<StockMove>,
    k: int,
    barcode: Seq<char>,
    loc: Location,
)
    requires
        only_gives(moves),
        0 <= k <= moves.len(),
    ensures
        0 <= net(moves.take(k), barcode, loc),
        0 <= net_mirror(moves.take(k), barcode),
    decreases k,
{
    if k == 0 {
        assert(moves.take(0) =~= Seq::<StockMove>::empty());
    } else {
        lemma_gives_nonnegative(moves, k - 1, barcode, loc);
        lemma_net_step(moves, k - 1, barcode, loc);
    }
}

/// Why one change of a counter is refused, judged on the product rows as
/// they stand; `None` where it is made.
pub open spec fn adjustment_refusal(
    products: Seq<Product>,
    barcode: Seq<char>,
    loc: Location,
    delta: int,
) -> Option<ErrorView> {
    if !has_barcode(products, barcode) {
        Some(ErrorView::ProductNotFound { barcode })
    } else {
        let p = products[position(products, barcode)];
        if p.at(loc) + delta < 0 {
            Some(
                ErrorView::InsufficientStock {
                    barcode,
                    location: loc,
                    available: p.at(loc),
                    requested: units_asked(delta),
                },
            )
        } else if p.at(loc) + delta > i64::MAX || !(i64::MIN <= p.stock + delta <= i64::MAX) {
            Some(ErrorView::OutOfRange)
        } else {
            None
        }
    }
}

/// A product row with one location counter and the mirror counter changed by
/// `delta`.
pub open spec fn adjusted(p: Product, loc: Location, delta: int) -> Product {
    match loc {
        Location::Store => p.with_counters(
            p.magaza_stok + delta,
            p.depo_stok as int,
            p.stock + delta,
        ),
        Location::Warehouse => p.with_counters(
            p.magaza_stok as int,
            p.depo_stok + delta,
            p.stock + delta,
        ),
    }
}

/// Changes the counter of one location of one product by `delta`, and the
/// mirror counter with it. A decrement that would take the counter below zero
/// is refused and names what is there and what was asked for.
pub fn adjust_location_stock(
    products: &mut Vec<Product>,
    barcode: &String,
    location: Location,
    delta: i64,
) -> (r: Result<(), LedgerError>)
    requires
        unique_barcodes(old(products)@),
        stocks_nonnegative(old(products)@),
    ensures
        unique_barcodes(final(products)@),
        stocks_nonnegative(final(products)@),
        same_barcodes(old(products)@, final(products)@),
        match r {
            Ok(()) => {
                let i = position(old(products)@, barcode@);
                &&& adjustment_refusal(old(products)@, barcode@, location, delta as int) is None
                &&& final(products)@.len() == old(products)@.len()
                &&& final(products)@[i] == adjusted(old(products)@[i], location, delta as int)
                &&& forall|j: int|
                    0 <= j < old(products)@.len() && j != i ==> #[trigger] final(products)@[j]
                        == old(products)@[j]
            },
            Err(e) => *final(products) == *old(products) && adjustment_refusal(
                old(products)@,
                barcode@,
                location,
                delta as int,
            ) == Some(e@),
        },
{
    let i = match find_product(products, barcode) {
        Some(i) => i,
        None => {
            return Err(LedgerError::ProductNotFound { barcode: barcode.clone() });
        },
    };
    let cur = products[i].count_at(location);
    let next: i128 = cur as i128 + delta as i128;
    if next < 0 {
        return Err(
            LedgerError::InsufficientStock {
                barcode: barcode.clone(),
                location,
                available: cur,
                requested: asked(delta),
            },
        );
    }
    let mirror: i128 = products[i].stock as i128 + delta as i128;
    if next > i64::MAX as i128 || mirror < i64::MIN as i128 || mirror > i64::MAX as i128 {
        return Err(LedgerError::OutOfRange);
    }
    match location {
        Location::Store => {
            products[i].magaza_stok = next as i64;
        },
        Location::Warehouse => {
            products[i].depo_stok = next as i64;
        },
    }
    products[i].stock = mirror as i64;
    proof {
        assert forall|a: int, b: int| 0 <= a < b < products@.len() implies (
        #[trigger] products@[a]).barcode@ != (#[trigger] products@[b]).barcode@ by {
            assert(old(products)@[a].barcode@ != old(products)@[b].barcode@);
        }
        assert forall|a: int| 0 <= a < products@.len() implies (#[trigger] products@[a]).magaza_stok
            >= 0 && products@[a].depo_stok >= 0 by {
            assert(old(products)@[a].magaza_stok >= 0);
        }
    }
    Ok(())
}

} // verus!

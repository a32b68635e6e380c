//! The transfer processor: moving stock between the two locations, and
//! undoing the most recent transfer.

use crate::clock::{Moment, Timestamp};
use crate::error::{ErrorView, LedgerError};
use crate::kinds::{location_of, Location};
use crate::ledger::{
    lemma_lines_stay_sound, text_of, transfers_sound, Ledger, TransferRecord, TransferRecordView,
};
use crate::sale::{capped, units, units_of};
use crate::stock::{
    lemma_barcode_kept, counters_in_range, all_accepted, apply_moves, find_product, first_refusal, has_barcode, moved_all, position,
    unique_barcodes, Product, StockMove,
};
use crate::text::{decimal, gen_group_id, norm_opt, trimmed};
use vstd::prelude::*;

verus! {

/// One line of a transfer, its locations already resolved.
#[derive(Debug)]
pub struct TransferItem {
    pub barcode: String,
    /// Units to move; anything below one counts as one.
    pub qty: i64,
    pub from_loc: Location,
    pub to_loc: Location,
}

/// What a committed transfer reports.
#[derive(Debug)]
pub struct CreateTransferResult {
    pub transfer_group_id: String,
    pub lines: i64,
}

/// What an undone transfer reports.
#[derive(Debug)]
pub struct UndoLastTransferResult {
    pub transfer_group_id: String,
    pub restored_lines: i64,
}

/// The units that the transfer takes out of one location of one product.
pub open spec fn outgoing(items: Seq<TransferItem>, barcode: Seq<char>, loc: Location) -> int
    decreases items.len(),
{
    if items.len() == 0 {
        0
    } else {
        let it = items.last();
        outgoing(items.drop_last(), barcode, loc) + if it.barcode@ == barcode && it.from_loc
            == loc {
            units(it.qty as int)
        } else {
            0
        }
    }
}

/// Some line names one place as source and destination.
pub open spec fn has_same_location(items: Seq<TransferItem>) -> bool {
    exists|i: int| 0 <= i < items.len() && (#[trigger] items[i]).from_loc == items[i].to_loc
}

/// The movements of a transfer: each line leaves its source and then enters
/// its destination. The mirror counter does not move.
pub open spec fn transfer_moves(items: Seq<TransferItem>) -> Seq<StockMove> {
    Seq::new(
        2 * items.len(),
        |k: int|
            if k % 2 == 0 {
                StockMove {
                    barcode: items[k / 2].barcode,
                    location: items[k / 2].from_loc,
                    delta: (-units(items[k / 2].qty as int)) as i64,
                    mirrored: false,
                }
            } else {
                StockMove {
                    barcode: items[k / 2].barcode,
                    location: items[k / 2].to_loc,
                    delta: units(items[k / 2].qty as int) as i64,
                    mirrored: false,
                }
            },
    )
}

/// Why line `i` stops the transfer, judged against the whole basket: its
/// product is unknown, or its source holds less than the basket takes out of
/// it in total.
pub open spec fn source_refusal(products: Seq<Product>, items: Seq<TransferItem>, i: int) -> Option<
    ErrorView,
> {
    let it = items[i];
    if !has_barcode(products, it.barcode@) {
        Some(ErrorView::ProductNotFound { barcode: it.barcode@ })
    } else {
        let p = products[position(products, it.barcode@)];
        let want = outgoing(items, it.barcode@, it.from_loc);
        if p.at(it.from_loc) < want {
            Some(
                ErrorView::InsufficientStock {
                    barcode: it.barcode@,
                    location: it.from_loc,
                    available: p.at(it.from_loc),
                    requested: capped(want),
                },
            )
        } else {
            None
        }
    }
}

/// No line stops the transfer.
pub open spec fn sources_accepted(products: Seq<Product>, items: Seq<TransferItem>) -> bool {
    forall|i: int| 0 <= i < items.len() ==> #[trigger] source_refusal(products, items, i) is None
}

/// Line `i` is the first that stops the transfer, and `e` says why.
pub open spec fn first_source_refusal(
    products: Seq<Product>,
    items: Seq<TransferItem>,
    i: int,
    e: ErrorView,
) -> bool {
    &&& 0 <= i < items.len()
    &&& forall|j: int| 0 <= j < i ==> #[trigger] source_refusal(products, items, j) is None
    &&& source_refusal(products, items, i) == Some(e)
}

/// The transfer line recorded for a basket line.
pub open spec fn transfer_line(
    it: TransferItem,
    group: Seq<char>,
    note: Option<Seq<char>>,
    at: Timestamp,
) -> TransferRecordView {
    TransferRecordView {
        product_barcode: it.barcode@,
        qty: units(it.qty as int),
        from_loc: it.from_loc,
        to_loc: it.to_loc,
        transfer_group_id: Some(group),
        note,
        transferred_at: at,
        voided: false,
    }
}

/// The identifier of the transfer committed at `millis`.
pub open spec fn transfer_group_id(millis: u64) -> Seq<char> {
    seq!['T'] + decimal(millis as nat)
}

/// What a committed transfer leaves behind.
pub open spec fn transfer_committed(
    pre: &Ledger,
    post: &Ledger,
    items: Seq<TransferItem>,
    note: Option<Seq<char>>,
    now: &Moment,
    res: &CreateTransferResult,
) -> bool {
    let before = pre.transfers@.len() as int;
    let moves = transfer_moves(items);
    &&& items.len() > 0
    &&& !has_same_location(items)
    &&& sources_accepted(pre.products@, items)
    &&& items.len() <= i64::MAX
    &&& all_accepted(pre.products@, moves)
    &&& counters_in_range(pre.products@, moves)
    &&& res.transfer_group_id@ == transfer_group_id(now.millis)
    &&& res.lines == items.len()
    &&& post.products@ == moved_all(pre.products@, moves)
    &&& post.transfers@.len() == before + items.len()
    &&& post.transfers@.take(before) == pre.transfers@
    &&& forall|i: int|
        0 <= i < items.len() ==> (#[trigger] post.transfers@[before + i])@ == transfer_line(
            items[i],
            transfer_group_id(now.millis),
            note,
            now.at,
        )
    &&& post.same_sales(pre)
    &&& post.same_returns(pre)
    &&& post.same_expenses(pre)
}

/// Why a transfer is refused: the basket is empty; or a line names one place
/// twice; or a line fails the stock check, and the first such line decides;
/// or the number of lines leaves the 64-bit range; or a movement is refused.
pub open spec fn transfer_refused(pre: &Ledger, items: Seq<TransferItem>, e: ErrorView) -> bool {
    if items.len() == 0 {
        e == ErrorView::EmptyBasket
    } else if has_same_location(items) {
        e == ErrorView::SameLocation
    } else if !sources_accepted(pre.products@, items) {
        exists|i: int| first_source_refusal(pre.products@, items, i, e)
    } else if items.len() > i64::MAX {
        e == ErrorView::OutOfRange
    } else {
        exists|k: int| first_refusal(pre.products@, transfer_moves(items), k, e)
    }
}

/// One more transfer line adds its units to what the transfer takes out of
/// the source it names.
pub proof fn lemma_outgoing_step(
    items: Seq<TransferItem>,
    k: int,
    barcode: Seq<char>,
    loc: Location,
)
    requires
        0 <= k < items.len(),
    ensures
        outgoing(items.take(k + 1), barcode, loc) == outgoing(items.take(k), barcode, loc)
            + if items[k].barcode@ == barcode && items[k].from_loc == loc {
            units(items[k].qty as int)
        } else {
            0
        },
{
    let t = items.take(k + 1);
    assert(t.drop_last() =~= items.take(k));
    assert(t.last() == items[k]);
}

/// Sums what the transfer takes out of one location of one product.
fn sum_outgoing(items: &Vec<TransferItem>, barcode: &String, loc: Location) -> (r: i128)
    ensures
        r == outgoing(items@, barcode@, loc),
        0 <= r,
{
    let mut acc: i128 = 0;
    let mut t: usize = 0;
    assert(items@.take(0) =~= Seq::<TransferItem>::empty());
    while t < items.len()
        invariant
            t <= items.len(),
            acc == outgoing(items@.take(t as int), barcode@, loc),
            0 <= acc <= t * 0x7fff_ffff_ffff_ffff,
        decreases items.len() - t,
    {
        proof {
            lemma_outgoing_step(items@, t as int, barcode@, loc);
        }
        if items[t].barcode == *barcode && items[t].from_loc == loc {
            acc = acc + units_of(items[t].qty) as i128;
        }
        t += 1;
    }
    assert(items@.take(items.len() as int) =~= items@);
    acc
}

/// Judges one line of the transfer against the stock.
fn check_source(products: &Vec<Product>, items: &Vec<TransferItem>, i: usize) -> (r: Option<
    LedgerError,
>)
    requires
        i < items.len(),
        unique_barcodes(products@),
    ensures
        match r {
            Some(e) => source_refusal(products@, items@, i as int) == Some(e@),
            None => source_refusal(products@, items@, i as int) is None,
        },
{
    let it = &items[i];
    match find_product(products, &it.barcode) {
        None => Some(LedgerError::ProductNotFound { barcode: it.barcode.clone() }),
        Some(idx) => {
            let have = products[idx].count_at(it.from_loc);
            let want = sum_outgoing(items, &it.barcode, it.from_loc);
            if (have as i128) < want {
                let shown: i64 = if want > i64::MAX as i128 {
                    i64::MAX
                } else {
                    want as i64
                };
                Some(
                    LedgerError::InsufficientStock {
                        barcode: it.barcode.clone(),
                        location: it.from_loc,
                        available: have,
                        requested: shown,
                    },
                )
            } else {
                None
            }
        },
    }
}

/// Whether some line names one place as source and destination.
fn any_same_location(items: &Vec<TransferItem>) -> (b: bool)
    ensures
        b == has_same_location(items@),
{
    let mut t: usize = 0;
    while t < items.len()
        invariant
            t <= items.len(),
            forall|i: int| 0 <= i < t ==> (#[trigger] items@[i]).from_loc != items@[i].to_loc,
        decreases items.len() - t,
    {
        if items[t].from_loc == items[t].to_loc {
            return true;
        }
        t += 1;
    }
    false
}

/// Builds the movements and the transfer lines of a basket.
fn build_transfer(items: &Vec<TransferItem>, group: &String, note: &Option<String>, at: Timestamp)
    -> (r: (Vec<StockMove>, Vec<TransferRecord>))
    ensures
        r.0@ == transfer_moves(items@),
        r.1@.len() == items@.len(),
        forall|i: int|
            0 <= i < items@.len() ==> (#[trigger] r.1@[i])@ == transfer_line(
                items@[i],
                group@,
                text_of(*note),
                at,
            ),
{
    let mut moves: Vec<StockMove> = Vec::new();
    let mut lines: Vec<TransferRecord> = Vec::new();
    let mut t: usize = 0;
    while t < items.len()
        invariant
            t <= items.len(),
            moves@.len() == 2 * t,
            lines@.len() == t,
            forall|k: int| 0 <= k < 2 * t ==> #[trigger] moves@[k] == transfer_moves(items@)[k],
            forall|i: int|
                0 <= i < t ==> (#[trigger] lines@[i])@ == transfer_line(
                    items@[i],
                    group@,
                    text_of(*note),
                    at,
                ),
        decreases items.len() - t,
    {
        let it = &items[t];
        let count = units_of(it.qty);
        moves.push(
            StockMove {
                barcode: it.barcode.clone(),
                location: it.from_loc,
                delta: -count,
                mirrored: false,
            },
        );
        moves.push(
            StockMove {
                barcode: it.barcode.clone(),
                location: it.to_loc,
                delta: count,
                mirrored: false,
            },
        );
        lines.push(
            TransferRecord {
                product_barcode: it.barcode.clone(),
                qty: count,
                from_loc: it.from_loc,
                to_loc: it.to_loc,
                transfer_group_id: Some(group.clone()),
                note: note.clone(),
                transferred_at: at,
                voided: false,
            },
        );
        proof {
            assert forall|k: int| 0 <= k < 2 * (t + 1) implies #[trigger] moves@[k]
                == transfer_moves(items@)[k] by {
                if k == 2 * t {
                    assert(k / 2 == t && k % 2 == 0);
                } else if k == 2 * t + 1 {
                    assert(k / 2 == t && k % 2 == 1);
                }
            }
        }
        t += 1;
    }
    assert(moves@ =~= transfer_moves(items@));
    (moves, lines)
}

/// Moves stock between the two locations.
///
/// The whole basket is checked before anything changes: no line may name one
/// place as source and destination, every product must exist, and every
/// source must hold what the basket takes out of it in total. Then each line
/// leaves its source and enters its destination, and is recorded as one
/// transfer line under one new group identifier.
pub fn transfer(
    ledger: &mut Ledger,
    items: &Vec<TransferItem>,
    note: &Option<String>,
    now: &Moment,
) -> (r: Result<CreateTransferResult, LedgerError>)
    requires
        old(ledger).wf(),
    ensures
        final(ledger).wf(),
        match r {
            Ok(res) => transfer_committed(
                old(ledger),
                final(ledger),
                items@,
                text_of(*note),
                now,
                &res,
            ),
            Err(e) => *final(ledger) == *old(ledger) && transfer_refused(old(ledger), items@, e@),
        },
{
    if items.len() == 0 {
        return Err(LedgerError::EmptyBasket);
    }
    if any_same_location(items) {
        return Err(LedgerError::SameLocation);
    }
    let mut i: usize = 0;
    while i < items.len()
        invariant
            i <= items.len(),
            !has_same_location(items@),
            *ledger == *old(ledger),
            ledger.wf(),
            forall|j: int|
                0 <= j < i ==> #[trigger] source_refusal(ledger.products@, items@, j) is None,
        decreases items.len() - i,
    {
        match check_source(&ledger.products, items, i) {
            Some(e) => {
                assert(first_source_refusal(ledger.products@, items@, i as int, e@));
                return Err(e);
            },
            None => {},
        }
        i += 1;
    }
    assert(sources_accepted(ledger.products@, items@));
    if items.len() as u64 > i64::MAX as u64 {
        return Err(LedgerError::OutOfRange);
    }
    let count = items.len() as i64;
    let group = gen_group_id("T", now.millis);
    proof {
        reveal_strlit("T");
        assert(group@ =~= transfer_group_id(now.millis));
    }
    let (moves, mut lines) = build_transfer(items, &group, note, now.at);
    match apply_moves(&mut ledger.products, &moves) {
        Err(e) => {
            return Err(e);
        },
        Ok(()) => {},
    }
    let ghost fresh = lines@;
    ledger.transfers.append(&mut lines);
    proof {
        let before = old(ledger).transfers@.len() as int;
        assert(ledger.transfers@.take(before) =~= old(ledger).transfers@);
        assert forall|a: int| 0 <= a < items@.len() implies (#[trigger] ledger.transfers@[before
            + a])@ == transfer_line(
            items@[a],
            transfer_group_id(now.millis),
            text_of(*note),
            now.at,
        ) by {
            assert(ledger.transfers@[before + a] == fresh[a]);
        }
        lemma_lines_stay_sound(
            ledger.sales@,
            old(ledger).transfers@,
            old(ledger).products@,
            ledger.products@,
        );
        let lines = ledger.transfers@;
        assert(transfers_sound(lines, ledger.products@)) by {
            assert forall|a: int| 0 <= a < lines.len() implies (#[trigger] lines[a]).qty >= 1
                && has_barcode(ledger.products@, lines[a].product_barcode@) by {
                if a >= before {
                    let it = items@[a - before];
                    assert(lines[before + (a - before)]@.qty == units(it.qty as int));
                    assert(lines[before + (a - before)]@.product_barcode == it.barcode@);
                    assert(source_refusal(old(ledger).products@, items@, a - before) is None);
                    lemma_barcode_kept(old(ledger).products@, ledger.products@, it.barcode@);
                } else {
                    assert(lines[a] == old(ledger).transfers@[a]);
                }
            }
        }
    }
    Ok(CreateTransferResult { transfer_group_id: group, lines: count })
}

/// A transfer line that can still be undone: it is not voided and belongs to
/// a group.
pub open spec fn reversible(rec: TransferRecord) -> bool {
    !rec.voided && rec.transfer_group_id is Some
}

/// A transfer line that is not voided and belongs to the group `g`.
pub open spec fn in_transfer_group(rec: TransferRecord, g: Seq<char>) -> bool {
    !rec.voided && text_of(rec.transfer_group_id) == Some(g)
}

/// Line `i` is the most recently recorded line that can be undone.
pub open spec fn is_last_reversible(transfers: Seq<TransferRecord>, i: int) -> bool {
    &&& 0 <= i < transfers.len()
    &&& reversible(transfers[i])
    &&& forall|j: int| i < j < transfers.len() ==> !reversible(#[trigger] transfers[j])
}

/// No line can be undone.
pub open spec fn none_reversible(transfers: Seq<TransferRecord>) -> bool {
    forall|j: int| 0 <= j < transfers.len() ==> !reversible(#[trigger] transfers[j])
}

/// The group of the most recently recorded line that can be undone.
pub open spec fn last_transfer_group(transfers: Seq<TransferRecord>) -> Seq<char> {
    let i = choose|i: int| is_last_reversible(transfers, i);
    transfers[i].transfer_group_id->Some_0@
}

/// The movements that reverse the lines of group `g`: each line leaves its
/// destination and then enters its source again.
pub open spec fn undo_transfer_moves(transfers: Seq<TransferRecord>, g: Seq<char>) -> Seq<
    StockMove,
>
    decreases transfers.len(),
{
    if transfers.len() == 0 {
        Seq::empty()
    } else {
        let rec = transfers.last();
        let rest = undo_transfer_moves(transfers.drop_last(), g);
        if in_transfer_group(rec, g) {
            rest.push(
                StockMove {
                    barcode: rec.product_barcode,
                    location: rec.to_loc,
                    delta: (-rec.qty) as i64,
                    mirrored: false,
                },
            ).push(
                StockMove {
                    barcode: rec.product_barcode,
                    location: rec.from_loc,
                    delta: rec.qty,
                    mirrored: false,
                },
            )
        } else {
            rest
        }
    }
}

/// The number of live lines of group `g`.
pub open spec fn group_size(transfers: Seq<TransferRecord>, g: Seq<char>) -> int
    decreases transfers.len(),
{
    if transfers.len() == 0 {
        0
    } else {
        group_size(transfers.drop_last(), g) + if in_transfer_group(transfers.last(), g) {
            1int
        } else {
            0int
        }
    }
}

/// The transfer lines with those of group `g` marked as voided.
pub open spec fn with_group_voided(transfers: Seq<TransferRecord>, g: Seq<char>) -> Seq<
    TransferRecord,
> {
    Seq::new(
        transfers.len(),
        |i: int|
            if in_transfer_group(transfers[i], g) {
                TransferRecord { voided: true, ..transfers[i] }
            } else {
                transfers[i]
            },
    )
}

/// Every live line of group `g` moved a quantity that can be negated.
pub open spec fn group_reversible(transfers: Seq<TransferRecord>, g: Seq<char>) -> bool {
    forall|i: int|
        0 <= i < transfers.len() && in_transfer_group(#[trigger] transfers[i], g)
            ==> transfers[i].qty > i64::MIN
}

/// What an undone transfer leaves behind: the lines of the most recent group
/// are marked as voided and their units are back at their sources.
pub open spec fn transfer_undone(pre: &Ledger, post: &Ledger, res: &UndoLastTransferResult) -> bool {
    let g = last_transfer_group(pre.transfers@);
    let moves = undo_transfer_moves(pre.transfers@, g);
    &&& !none_reversible(pre.transfers@)
    &&& group_reversible(pre.transfers@, g)
    &&& group_size(pre.transfers@, g) <= i64::MAX
    &&& all_accepted(pre.products@, moves)
    &&& counters_in_range(pre.products@, moves)
    &&& res.transfer_group_id@ == g
    &&& res.restored_lines == group_size(pre.transfers@, g)
    &&& post.products@ == moved_all(pre.products@, moves)
    &&& post.transfers@ == with_group_voided(pre.transfers@, g)
    &&& post.same_sales(pre)
    &&& post.same_returns(pre)
    &&& post.same_expenses(pre)
}

/// Why an undo is refused: nothing can be undone; or a quantity or the number
/// of lines leaves the 64-bit range; or reversing the movements is refused,
/// and the first refused movement decides.
pub open spec fn transfer_undo_refused(pre: &Ledger, e: ErrorView) -> bool {
    if none_reversible(pre.transfers@) {
        e == ErrorView::NoTransferToUndo
    } else {
        let g = last_transfer_group(pre.transfers@);
        if !group_reversible(pre.transfers@, g) || group_size(pre.transfers@, g) > i64::MAX {
            e == ErrorView::OutOfRange
        } else {
            exists|k: int|
                first_refusal(pre.products@, undo_transfer_moves(pre.transfers@, g), k, e)
        }
    }
}

/// One more transfer line adds its two reversing movements where it belongs
/// to the group, and nothing otherwise.
pub proof fn lemma_undo_transfer_step(transfers: Seq<TransferRecord>, k: int, g: Seq<char>)
    requires
        0 <= k < transfers.len(),
    ensures
        undo_transfer_moves(transfers.take(k + 1), g) == if in_transfer_group(transfers[k], g) {
            undo_transfer_moves(transfers.take(k), g).push(
                StockMove {
                    barcode: transfers[k].product_barcode,
                    location: transfers[k].to_loc,
                    delta: (-transfers[k].qty) as i64,
                    mirrored: false,
                },
            ).push(
                StockMove {
                    barcode: transfers[k].product_barcode,
                    location: transfers[k].from_loc,
                    delta: transfers[k].qty,
                    mirrored: false,
                },
            )
        } else {
            undo_transfer_moves(transfers.take(k), g)
        },
        group_size(transfers.take(k + 1), g) == group_size(transfers.take(k), g)
            + if in_transfer_group(transfers[k], g) {
            1int
        } else {
            0int
        },
{
    let t = transfers.take(k + 1);
    assert(t.drop_last() =~= transfers.take(k));
    assert(t.last() == transfers[k]);
}

/// Finds the most recently recorded line that can be undone.
fn find_last_reversible(transfers: &Vec<TransferRecord>) -> (r: Option<usize>)
    ensures
        match r {
            Some(i) => is_last_reversible(transfers@, i as int),
            None => none_reversible(transfers@),
        },
{
    let mut i: usize = transfers.len();
    while i > 0
        invariant
            i <= transfers.len(),
            forall|j: int| i <= j < transfers.len() ==> !reversible(#[trigger] transfers@[j]),
        decreases i,
    {
        i -= 1;
        if !transfers[i].voided && transfers[i].transfer_group_id.is_some() {
            return Some(i);
        }
    }
    None
}

/// Whether a transfer line is a live line of the group.
fn line_in_transfer_group(rec: &TransferRecord, group: &String) -> (b: bool)
    ensures
        b == in_transfer_group(*rec, group@),
{
    if rec.voided {
        return false;
    }
    match &rec.transfer_group_id {
        Some(g) => *g == *group,
        None => false,
    }
}

/// Undoes the most recent transfer: every line of the group of the most
/// recently recorded live transfer line leaves its destination and enters its
/// source again, and the lines are marked as voided. They stay in the
/// history.
pub fn undo_last_transfer(ledger: &mut Ledger) -> (r: Result<UndoLastTransferResult, LedgerError>)
    requires
        old(ledger).wf(),
    ensures
        final(ledger).wf(),
        match r {
            Ok(res) => transfer_undone(old(ledger), final(ledger), &res),
            Err(e) => *final(ledger) == *old(ledger) && transfer_undo_refused(old(ledger), e@),
        },
{
    let last = match find_last_reversible(&ledger.transfers) {
        Some(i) => i,
        None => {
            return Err(LedgerError::NoTransferToUndo);
        },
    };
    let group: String = match &ledger.transfers[last].transfer_group_id {
        Some(g) => g.clone(),
        None => {
            return Err(LedgerError::NoTransferToUndo);
        },
    };
    proof {
        let c = choose|i: int| is_last_reversible(ledger.transfers@, i);
        assert(is_last_reversible(ledger.transfers@, last as int));
        if c < last {
            assert(!reversible(ledger.transfers@[last as int]));
        } else if last < c {
            assert(!reversible(ledger.transfers@[c]));
        }
        assert(group@ == last_transfer_group(ledger.transfers@));
        assert(reversible(ledger.transfers@[last as int]));
    }
    let mut moves: Vec<StockMove> = Vec::new();
    let mut count: usize = 0;
    let mut t: usize = 0;
    assert(ledger.transfers@.take(0) =~= Seq::<TransferRecord>::empty());
    while t < ledger.transfers.len()
        invariant
            t <= ledger.transfers.len(),
            *ledger == *old(ledger),
            ledger.wf(),
            !none_reversible(ledger.transfers@),
            group@ == last_transfer_group(ledger.transfers@),
            moves@ == undo_transfer_moves(ledger.transfers@.take(t as int), group@),
            count == group_size(ledger.transfers@.take(t as int), group@),
            count <= t,
            forall|i: int|
                0 <= i < t && in_transfer_group(#[trigger] ledger.transfers@[i], group@)
                    ==> ledger.transfers@[i].qty > i64::MIN,
        decreases ledger.transfers.len() - t,
    {
        proof {
            lemma_undo_transfer_step(ledger.transfers@, t as int, group@);
        }
        let rec = &ledger.transfers[t];
        if line_in_transfer_group(rec, &group) {
            if rec.qty == i64::MIN {
                assert(!group_reversible(ledger.transfers@, group@));
                return Err(LedgerError::OutOfRange);
            }
            moves.push(
                StockMove {
                    barcode: rec.product_barcode.clone(),
                    location: rec.to_loc,
                    delta: -rec.qty,
                    mirrored: false,
                },
            );
            moves.push(
                StockMove {
                    barcode: rec.product_barcode.clone(),
                    location: rec.from_loc,
                    delta: rec.qty,
                    mirrored: false,
                },
            );
            count += 1;
        }
        t += 1;
    }
    assert(ledger.transfers@.take(ledger.transfers.len() as int) =~= ledger.transfers@);
    assert(group_reversible(ledger.transfers@, group@));
    if count as u64 > i64::MAX as u64 {
        return Err(LedgerError::OutOfRange);
    }
    match apply_moves(&mut ledger.products, &moves) {
        Err(e) => {
            return Err(e);
        },
        Ok(()) => {},
    }
    let mut u: usize = 0;
    while u < ledger.transfers.len()
        invariant
            u <= ledger.transfers.len(),
            ledger.transfers@.len() == old(ledger).transfers@.len(),
            ledger.products@ == moved_all(old(ledger).products@, moves@),
            ledger.same_sales(old(ledger)),
            ledger.same_returns(old(ledger)),
            ledger.same_expenses(old(ledger)),
            ledger.wf(),
            forall|i: int|
                0 <= i < u ==> #[trigger] ledger.transfers@[i] == with_group_voided(
                    old(ledger).transfers@,
                    group@,
                )[i],
            forall|i: int|
                u <= i < ledger.transfers@.len() ==> #[trigger] ledger.transfers@[i] == old(
                    ledger,
                ).transfers@[i],
        decreases ledger.transfers.len() - u,
    {
        if line_in_transfer_group(&ledger.transfers[u], &group) {
            ledger.transfers[u].voided = true;
        }
        u += 1;
    }
    assert(ledger.transfers@ =~= with_group_voided(old(ledger).transfers@, group@));
    Ok(UndoLastTransferResult { transfer_group_id: group, restored_lines: count as i64 })
}

/// One line of a transfer as the caller sends it.
#[derive(Debug)]
pub struct CreateTransferItemPayload {
    pub barcode: String,
    pub qty: i64,
    /// The code of the source location.
    pub from_loc: String,
    /// The code of the destination location.
    pub to_loc: String,
}

/// A transfer as the caller sends it.
#[derive(Debug)]
pub struct CreateTransferPayload {
    pub items: Vec<CreateTransferItemPayload>,
    pub note: Option<String>,
}

/// The transfer lines that a payload stands for.
pub open spec fn transfer_of(items: Seq<CreateTransferItemPayload>) -> Seq<TransferItem> {
    Seq::new(
        items.len(),
        |i: int|
            TransferItem {
                barcode: items[i].barcode,
                qty: items[i].qty,
                from_loc: location_of(items[i].from_loc@),
                to_loc: location_of(items[i].to_loc@),
            },
    )
}

/// The note that is recorded: the note sent, trimmed; none for a missing or
/// blank one.
pub open spec fn note_of(note: Option<String>) -> Option<Seq<char>> {
    match note {
        Some(n) => if trimmed(n@).len() == 0 {
            None
        } else {
            Some(trimmed(n@))
        },
        None => None,
    }
}

/// Moves stock as the caller sends it: resolves the locations of each line
/// from their codes and trims the note, then makes the transfer.
pub fn create_transfer(ledger: &mut Ledger, payload: CreateTransferPayload, now: &Moment) -> (r:
    Result<CreateTransferResult, LedgerError>)
    requires
        old(ledger).wf(),
    ensures
        final(ledger).wf(),
        match r {
            Ok(res) => transfer_committed(
                old(ledger),
                final(ledger),
                transfer_of(payload.items@),
                note_of(payload.note),
                now,
                &res,
            ),
            Err(e) => *final(ledger) == *old(ledger) && transfer_refused(
                old(ledger),
                transfer_of(payload.items@),
                e@,
            ),
        },
{
    let mut items: Vec<TransferItem> = Vec::new();
    let mut t: usize = 0;
    while t < payload.items.len()
        invariant
            t <= payload.items.len(),
            items@.len() == t,
            forall|i: int| 0 <= i < t ==> #[trigger] items@[i] == transfer_of(payload.items@)[i],
        decreases payload.items.len() - t,
    {
        let it = &payload.items[t];
        items.push(
            TransferItem {
                barcode: it.barcode.clone(),
                qty: it.qty,
                from_loc: Location::parse(it.from_loc.as_str()),
                to_loc: Location::parse(it.to_loc.as_str()),
            },
        );
        t += 1;
    }
    assert(items@ =~= transfer_of(payload.items@));
    let note = norm_opt(payload.note);
    assert(text_of(note) == note_of(payload.note));
    transfer(ledger, &items, &note, now)
}

} // verus!

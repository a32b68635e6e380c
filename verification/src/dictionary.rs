//! The dictionaries of categories, colors and sizes: reference lists that
//! products draw their descriptive texts from. An entry that products use can
//! be neither retired nor removed.

use crate::clock::{Moment, Timestamp};
use crate::error::{ErrorView, LedgerError};
use crate::kinds::DictKind;
use crate::stock::Product;
use crate::text::{
    chars_of, comes_first, lemma_text_le_antisymmetric, lemma_text_le_total,
    lemma_text_le_transitive, same_text, text_le, trim, trimmed,
};
use vstd::prelude::*;
use vstd::string::*;

verus! {

/// One entry of a dictionary.
#[derive(Debug)]
pub struct DictEntry {
    pub id: i64,
    pub name: String,
    pub sort_order: i64,
    pub is_active: bool,
    pub created_at: Option<Timestamp>,
}

/// One dictionary: its entries in the order they were added, and the
/// identifier the next entry gets.
#[derive(Debug)]
pub struct Dictionary {
    pub rows: Vec<DictEntry>,
    pub next_id: i64,
}

/// The three dictionaries.
#[derive(Debug)]
pub struct Dictionaries {
    pub categories: Dictionary,
    pub colors: Dictionary,
    pub sizes: Dictionary,
}

/// A category as it is listed.
#[derive(Debug)]
pub struct CategoryRow {
    pub id: i64,
    pub name: String,
    pub is_active: i64,
    pub created_at: Option<Timestamp>,
}

/// A color as it is listed.
#[derive(Debug)]
pub struct ColorRow {
    pub id: i64,
    pub name: String,
    pub is_active: i64,
    pub created_at: Option<Timestamp>,
}

/// A size as it is listed.
#[derive(Debug)]
pub struct SizeRow {
    pub id: i64,
    pub name: String,
    pub sort_order: i64,
    pub is_active: i64,
    pub created_at: Option<Timestamp>,
}

/// Some entry carries the name.
pub open spec fn has_name(rows: Seq<DictEntry>, name: Seq<char>) -> bool {
    exists|i: int| 0 <= i < rows.len() && (#[trigger] rows[i]).name@ == name
}

/// Some entry other than the one at `skip` carries the name.
pub open spec fn name_taken(rows: Seq<DictEntry>, name: Seq<char>, skip: int) -> bool {
    exists|i: int| 0 <= i < rows.len() && i != skip && (#[trigger] rows[i]).name@ == name
}

/// Entry `i` is the first with the identifier.
pub open spec fn is_entry(rows: Seq<DictEntry>, i: int, id: i64) -> bool {
    &&& 0 <= i < rows.len()
    &&& rows[i].id == id
    &&& forall|j: int| 0 <= j < i ==> (#[trigger] rows[j]).id != id
}

/// Some entry carries the identifier.
pub open spec fn has_entry(rows: Seq<DictEntry>, id: i64) -> bool {
    exists|i: int| 0 <= i < rows.len() && (#[trigger] rows[i]).id == id
}

/// The position of the first entry with the identifier.
pub open spec fn entry_position(rows: Seq<DictEntry>, id: i64) -> int {
    choose|i: int| is_entry(rows, i, id)
}

/// The text of a product that a dictionary of this kind describes.
pub open spec fn described(p: Product, kind: DictKind) -> Seq<char> {
    let field = match kind {
        DictKind::Category => p.category,
        DictKind::Color => p.color,
        DictKind::Size => p.size,
    };
    match field {
        Some(t) => trimmed(t@),
        None => trimmed(Seq::empty()),
    }
}

/// Some product uses the name in the field of this kind, white space at the
/// ends aside.
pub open spec fn in_use(products: Seq<Product>, kind: DictKind, name: Seq<char>) -> bool {
    exists|i: int|
        0 <= i < products.len() && described(#[trigger] products[i], kind) == trimmed(name)
}

fn find_name(rows: &Vec<DictEntry>, name: &str, skip: usize) -> (r: bool)
    ensures
        r == name_taken(rows@, name@, skip as int),
{
    let mut i: usize = 0;
    while i < rows.len()
        invariant
            i <= rows.len(),
            forall|j: int| 0 <= j < i && j != skip ==> (#[trigger] rows@[j]).name@ != name@,
        decreases rows.len() - i,
    {
        if i != skip && same_text(rows[i].name.as_str(), name) {
            return true;
        }
        i += 1;
    }
    false
}

fn find_entry(rows: &Vec<DictEntry>, id: i64) -> (r: Option<usize>)
    ensures
        match r {
            Some(i) => is_entry(rows@, i as int, id) && entry_position(rows@, id) == i,
            None => !has_entry(rows@, id),
        },
{
    let mut i: usize = 0;
    while i < rows.len()
        invariant
            i <= rows.len(),
            forall|j: int| 0 <= j < i ==> (#[trigger] rows@[j]).id != id,
        decreases rows.len() - i,
    {
        if rows[i].id == id {
            proof {
                assert(is_entry(rows@, i as int, id));
                let c = entry_position(rows@, id);
                assert(is_entry(rows@, c, id));
                if c < i {
                    assert(rows@[c].id != id);
                } else if i < c {
                    assert(rows@[i as int].id != id);
                }
            }
            return Some(i);
        }
        i += 1;
    }
    None
}

fn is_used(products: &Vec<Product>, kind: DictKind, name: &str) -> (r: bool)
    ensures
        r == in_use(products@, kind, name@),
{
    let want = trim(name);
    let mut i: usize = 0;
    while i < products.len()
        invariant
            i <= products.len(),
            want@ == trimmed(name@),
            forall|j: int|
                0 <= j < i ==> described(#[trigger] products@[j], kind) != trimmed(name@),
        decreases products.len() - i,
    {
        let field = match kind {
            DictKind::Category => &products[i].category,
            DictKind::Color => &products[i].color,
            DictKind::Size => &products[i].size,
        };
        let have: &str = match field {
            Some(t) => trim(t.as_str()),
            None => {
                proof {
                    reveal_strlit("");
                    assert(""@ =~= Seq::<char>::empty());
                }
                trim("")
            },
        };
        if same_text(have, want) {
            return true;
        }
        i += 1;
    }
    false
}

/// What adding a name to a dictionary leaves behind: a new active entry with
/// the trimmed name, unless an entry already carries it.
pub open spec fn entry_added(
    pre: &Dictionary,
    post: &Dictionary,
    name: Seq<char>,
    sort_order: i64,
    now: &Moment,
) -> bool {
    let t = trimmed(name);
    &&& t.len() > 0
    &&& if has_name(pre.rows@, t) {
        *post == *pre
    } else {
        &&& pre.next_id < i64::MAX
        &&& post.next_id == pre.next_id + 1
        &&& post.rows@.len() == pre.rows@.len() + 1
        &&& post.rows@.drop_last() == pre.rows@
        &&& post.rows@.last().id == pre.next_id
        &&& post.rows@.last().name@ == t
        &&& post.rows@.last().sort_order == sort_order
        &&& post.rows@.last().is_active
        &&& post.rows@.last().created_at == Some(now.at)
    }
}

/// Why a name cannot be added: it is blank, or the identifiers have run out.
pub open spec fn entry_refused(
    pre: &Dictionary,
    kind: DictKind,
    name: Seq<char>,
    e: ErrorView,
) -> bool {
    if trimmed(name).len() == 0 {
        e == (ErrorView::NameRequired { kind })
    } else {
        e == ErrorView::OutOfRange && !has_name(pre.rows@, trimmed(name)) && pre.next_id
            == i64::MAX
    }
}

/// Adds a name to a dictionary, unless it is there already. Reports one row
/// either way.
pub fn add_entry(
    d: &mut Dictionary,
    kind: DictKind,
    name: &str,
    sort_order: i64,
    now: &Moment,
) -> (r: Result<i64, LedgerError>)
    ensures
        match r {
            Ok(n) => n == 1 && entry_added(old(d), final(d), name@, sort_order, now),
            Err(e) => *final(d) == *old(d) && entry_refused(old(d), kind, name@, e@),
        },
{
    let t = trim(name);
    if t.unicode_len() == 0 {
        return Err(LedgerError::NameRequired { kind });
    }
    if find_name(&d.rows, t, d.rows.len()) {
        return Ok(1);
    }
    assert(!has_name(d.rows@, t@));
    if d.next_id == i64::MAX {
        return Err(LedgerError::OutOfRange);
    }
    let id = d.next_id;
    d.rows.push(
        DictEntry {
            id,
            name: t.to_owned(),
            sort_order,
            is_active: true,
            created_at: Some(now.at),
        },
    );
    d.next_id = id + 1;
    assert(d.rows@.drop_last() =~= old(d).rows@);
    Ok(1)
}

/// The name an entry carries after an update.
pub open spec fn name_after(old_name: Seq<char>, name: Option<Seq<char>>) -> Seq<char> {
    match name {
        Some(n) => trimmed(n),
        None => old_name,
    }
}

/// The number of changes an update asks for.
pub open spec fn changes_asked(
    name: Option<Seq<char>>,
    sort_order: Option<i64>,
    is_active: Option<i64>,
) -> int {
    (if name is Some {
        1int
    } else {
        0int
    }) + (if sort_order is Some {
        1int
    } else {
        0int
    }) + (if is_active is Some {
        1int
    } else {
        0int
    })
}

/// Why an entry cannot be updated. The checks are made in this order: the
/// identifier; the entry; the new name, which must not be blank nor that of
/// another entry; and, where the entry is to be retired, its use by products.
pub open spec fn update_refused(
    rows: Seq<DictEntry>,
    products: Seq<Product>,
    kind: DictKind,
    id: i64,
    name: Option<Seq<char>>,
    is_active: Option<i64>,
    e: ErrorView,
) -> bool {
    if id <= 0 {
        e == ErrorView::InvalidId
    } else if !has_entry(rows, id) {
        e == (ErrorView::EntryNotFound { kind })
    } else {
        let i = entry_position(rows, id);
        if name is Some && trimmed(name->Some_0).len() == 0 {
            e == (ErrorView::NameRequired { kind })
        } else if name is Some && name_taken(rows, trimmed(name->Some_0), i) {
            e == ErrorView::DuplicateName
        } else {
            e == (ErrorView::EntryInUse { kind, removing: false }) && is_active == Some(0i64) && in_use(
                products,
                kind,
                name_after(rows[i].name@, name),
            )
        }
    }
}

/// What an update leaves behind: the entry with its new name, sort order and
/// state, as far as they were sent, and the number of changes reported.
pub open spec fn entry_updated(
    pre: &Dictionary,
    post: &Dictionary,
    products: Seq<Product>,
    kind: DictKind,
    id: i64,
    name: Option<Seq<char>>,
    sort_order: Option<i64>,
    is_active: Option<i64>,
    changed: i64,
) -> bool {
    let i = entry_position(pre.rows@, id);
    let was = pre.rows@[i];
    let now = post.rows@[i];
    &&& id > 0
    &&& has_entry(pre.rows@, id)
    &&& forall|e: ErrorView|
        !update_refused(pre.rows@, products, kind, id, name, is_active, e)
    &&& changed == changes_asked(name, sort_order, is_active)
    &&& post.next_id == pre.next_id
    &&& post.rows@.len() == pre.rows@.len()
    &&& forall|j: int| 0 <= j < pre.rows@.len() && j != i ==> #[trigger] post.rows@[j] == pre.rows@[j]
    &&& now.id == was.id
    &&& now.name@ == name_after(was.name@, name)
    &&& now.sort_order == (match sort_order {
        Some(s) => s,
        None => was.sort_order,
    })
    &&& now.is_active == (match is_active {
        Some(a) => a != 0,
        None => was.is_active,
    })
    &&& now.created_at == was.created_at
}

/// The text of an optional name.
pub open spec fn name_text(name: Option<String>) -> Option<Seq<char>> {
    match name {
        Some(n) => Some(n@),
        None => None,
    }
}

/// Updates an entry: its name, its sort order and whether it is active, as
/// far as they are sent. An entry that products use cannot be retired.
pub fn update_entry(
    d: &mut Dictionary,
    products: &Vec<Product>,
    kind: DictKind,
    id: i64,
    name: Option<String>,
    sort_order: Option<i64>,
    is_active: Option<i64>,
) -> (r: Result<i64, LedgerError>)
    ensures
        match r {
            Ok(changed) => entry_updated(
                old(d),
                final(d),
                products@,
                kind,
                id,
                name_text(name),
                sort_order,
                is_active,
                changed,
            ),
            Err(e) => *final(d) == *old(d) && update_refused(
                old(d).rows@,
                products@,
                kind,
                id,
                name_text(name),
                is_active,
                e@,
            ),
        },
{
    if id <= 0 {
        return Err(LedgerError::InvalidId);
    }
    let i = match find_entry(&d.rows, id) {
        Some(i) => i,
        None => {
            return Err(LedgerError::EntryNotFound { kind });
        },
    };
    assert(has_entry(d.rows@, id));
    let new_name: Option<String> = match &name {
        Some(n) => {
            let t = trim(n.as_str());
            if t.unicode_len() == 0 {
                return Err(LedgerError::NameRequired { kind });
            }
            if find_name(&d.rows, t, i) {
                return Err(LedgerError::DuplicateName);
            }
            Some(t.to_owned())
        },
        None => None,
    };
    let retire = match is_active {
        Some(a) => a == 0,
        None => false,
    };
    if retire {
        let used = match &new_name {
            Some(t) => is_used(products, kind, t.as_str()),
            None => is_used(products, kind, d.rows[i].name.as_str()),
        };
        if used {
            return Err(LedgerError::EntryInUse { kind, removing: false });
        }
    }
    let mut changed: i64 = 0;
    match new_name {
        Some(t) => {
            d.rows[i].name = t;
            changed += 1;
        },
        None => {},
    }
    match sort_order {
        Some(s) => {
            d.rows[i].sort_order = s;
            changed += 1;
        },
        None => {},
    }
    match is_active {
        Some(a) => {
            d.rows[i].is_active = a != 0;
            changed += 1;
        },
        None => {},
    }
    Ok(changed)
}

/// Why an entry cannot be removed: the identifier is not positive, no entry
/// carries it, or products use the entry.
pub open spec fn removal_refused(
    rows: Seq<DictEntry>,
    products: Seq<Product>,
    kind: DictKind,
    id: i64,
    e: ErrorView,
) -> bool {
    if id <= 0 {
        e == ErrorView::InvalidId
    } else if !has_entry(rows, id) {
        e == (ErrorView::EntryNotFound { kind })
    } else {
        e == (ErrorView::EntryInUse { kind, removing: true }) && in_use(
            products,
            kind,
            rows[entry_position(rows, id)].name@,
        )
    }
}

/// Removes an entry that no product uses. Reports one row.
pub fn remove_entry(d: &mut Dictionary, products: &Vec<Product>, kind: DictKind, id: i64) -> (r:
    Result<i64, LedgerError>)
    ensures
        match r {
            Ok(n) => {
                &&& n == 1
                &&& id > 0
                &&& has_entry(old(d).rows@, id)
                &&& !in_use(products@, kind, old(d).rows@[entry_position(old(d).rows@, id)].name@)
                &&& final(d).rows@ == old(d).rows@.remove(entry_position(old(d).rows@, id))
                &&& final(d).next_id == old(d).next_id
            },
            Err(e) => *final(d) == *old(d) && removal_refused(
                old(d).rows@,
                products@,
                kind,
                id,
                e@,
            ),
        },
{
    if id <= 0 {
        return Err(LedgerError::InvalidId);
    }
    let i = match find_entry(&d.rows, id) {
        Some(i) => i,
        None => {
            return Err(LedgerError::EntryNotFound { kind });
        },
    };
    assert(has_entry(d.rows@, id));
    if is_used(products, kind, d.rows[i].name.as_str()) {
        return Err(LedgerError::EntryInUse { kind, removing: true });
    }
    let _ = d.rows.remove(i);
    Ok(1)
}

impl Dictionaries {
    /// Three empty dictionaries.
    pub fn new() -> (r: Dictionaries)
        ensures
            r.categories.rows@.len() == 0,
            r.colors.rows@.len() == 0,
            r.sizes.rows@.len() == 0,
            r.categories.next_id == 1,
            r.colors.next_id == 1,
            r.sizes.next_id == 1,
    {
        Dictionaries {
            categories: Dictionary { rows: Vec::new(), next_id: 1 },
            colors: Dictionary { rows: Vec::new(), next_id: 1 },
            sizes: Dictionary { rows: Vec::new(), next_id: 1 },
        }
    }
}

/// Adds a category.
pub fn add_category(dict: &mut Dictionaries, name: String, now: &Moment) -> (r: Result<
    i64,
    LedgerError,
>)
    ensures
        final(dict).colors == old(dict).colors,
        final(dict).sizes == old(dict).sizes,
        match r {
            Ok(n) => n == 1 && entry_added(
                &old(dict).categories,
                &final(dict).categories,
                name@,
                0,
                now,
            ),
            Err(e) => *final(dict) == *old(dict) && entry_refused(
                &old(dict).categories,
                DictKind::Category,
                name@,
                e@,
            ),
        },
{
    add_entry(&mut dict.categories, DictKind::Category, name.as_str(), 0, now)
}

/// Adds a category.
pub fn create_category(dict: &mut Dictionaries, name: String, now: &Moment) -> (r: Result<
    i64,
    LedgerError,
>)
    ensures
        final(dict).colors == old(dict).colors,
        final(dict).sizes == old(dict).sizes,
        match r {
            Ok(n) => n == 1 && entry_added(
                &old(dict).categories,
                &final(dict).categories,
                name@,
                0,
                now,
            ),
            Err(e) => *final(dict) == *old(dict) && entry_refused(
                &old(dict).categories,
                DictKind::Category,
                name@,
                e@,
            ),
        },
{
    add_category(dict, name, now)
}

/// Adds a color.
pub fn add_color(dict: &mut Dictionaries, name: String, now: &Moment) -> (r: Result<
    i64,
    LedgerError,
>)
    ensures
        final(dict).categories == old(dict).categories,
        final(dict).sizes == old(dict).sizes,
        match r {
            Ok(n) => n == 1 && entry_added(&old(dict).colors, &final(dict).colors, name@, 0, now),
            Err(e) => *final(dict) == *old(dict) && entry_refused(
                &old(dict).colors,
                DictKind::Color,
                name@,
                e@,
            ),
        },
{
    add_entry(&mut dict.colors, DictKind::Color, name.as_str(), 0, now)
}

/// Adds a color.
pub fn create_color(dict: &mut Dictionaries, name: String, now: &Moment) -> (r: Result<
    i64,
    LedgerError,
>)
    ensures
        final(dict).categories == old(dict).categories,
        final(dict).sizes == old(dict).sizes,
        match r {
            Ok(n) => n == 1 && entry_added(&old(dict).colors, &final(dict).colors, name@, 0, now),
            Err(e) => *final(dict) == *old(dict) && entry_refused(
                &old(dict).colors,
                DictKind::Color,
                name@,
                e@,
            ),
        },
{
    add_color(dict, name, now)
}

/// The sort order a size is added with: the one sent, or zero.
pub open spec fn order_sent(order_no: Option<i64>) -> i64 {
    match order_no {
        Some(v) => v,
        None => 0,
    }
}

/// Adds a size.
pub fn add_size(dict: &mut Dictionaries, name: String, order_no: Option<i64>, now: &Moment) -> (r:
    Result<i64, LedgerError>)
    ensures
        final(dict).categories == old(dict).categories,
        final(dict).colors == old(dict).colors,
        match r {
            Ok(n) => n == 1 && entry_added(
                &old(dict).sizes,
                &final(dict).sizes,
                name@,
                order_sent(order_no),
                now,
            ),
            Err(e) => *final(dict) == *old(dict) && entry_refused(
                &old(dict).sizes,
                DictKind::Size,
                name@,
                e@,
            ),
        },
{
    let so = match order_no {
        Some(v) => v,
        None => 0,
    };
    add_entry(&mut dict.sizes, DictKind::Size, name.as_str(), so, now)
}

/// Adds a size.
pub fn create_size(
    dict: &mut Dictionaries,
    name: String,
    sort_order: Option<i64>,
    now: &Moment,
) -> (r: Result<i64, LedgerError>)
    ensures
        final(dict).categories == old(dict).categories,
        final(dict).colors == old(dict).colors,
        match r {
            Ok(n) => n == 1 && entry_added(
                &old(dict).sizes,
                &final(dict).sizes,
                name@,
                order_sent(sort_order),
                now,
            ),
            Err(e) => *final(dict) == *old(dict) && entry_refused(
                &old(dict).sizes,
                DictKind::Size,
                name@,
                e@,
            ),
        },
{
    add_size(dict, name, sort_order, now)
}

/// Updates a category.
pub fn update_category(
    dict: &mut Dictionaries,
    products: &Vec<Product>,
    id: i64,
    name: Option<String>,
    is_active: Option<i64>,
) -> (r: Result<i64, LedgerError>)
    ensures
        final(dict).colors == old(dict).colors,
        final(dict).sizes == old(dict).sizes,
        match r {
            Ok(changed) => entry_updated(
                &old(dict).categories,
                &final(dict).categories,
                products@,
                DictKind::Category,
                id,
                name_text(name),
                None,
                is_active,
                changed,
            ),
            Err(e) => *final(dict) == *old(dict) && update_refused(
                old(dict).categories.rows@,
                products@,
                DictKind::Category,
                id,
                name_text(name),
                is_active,
                e@,
            ),
        },
{
    update_entry(&mut dict.categories, products, DictKind::Category, id, name, None, is_active)
}

/// Removes a category that no product uses.
pub fn delete_category(dict: &mut Dictionaries, products: &Vec<Product>, id: i64) -> (r: Result<
    i64,
    LedgerError,
>)
    ensures
        final(dict).colors == old(dict).colors,
        final(dict).sizes == old(dict).sizes,
        match r {
            Ok(n) => {
                let rows = old(dict).categories.rows@;
                &&& n == 1
                &&& id > 0
                &&& has_entry(rows, id)
                &&& !in_use(products@, DictKind::Category, rows[entry_position(rows, id)].name@)
                &&& final(dict).categories.rows@ == rows.remove(entry_position(rows, id))
                &&& final(dict).categories.next_id == old(dict).categories.next_id
            },
            Err(e) => *final(dict) == *old(dict) && removal_refused(
                old(dict).categories.rows@,
                products@,
                DictKind::Category,
                id,
                e@,
            ),
        },
{
    remove_entry(&mut dict.categories, products, DictKind::Category, id)
}

/// Updates a color.
pub fn update_color(
    dict: &mut Dictionaries,
    products: &Vec<Product>,
    id: i64,
    name: Option<String>,
    is_active: Option<i64>,
) -> (r: Result<i64, LedgerError>)
    ensures
        final(dict).categories == old(dict).categories,
        final(dict).sizes == old(dict).sizes,
        match r {
            Ok(changed) => entry_updated(
                &old(dict).colors,
                &final(dict).colors,
                products@,
                DictKind::Color,
                id,
                name_text(name),
                None,
                is_active,
                changed,
            ),
            Err(e) => *final(dict) == *old(dict) && update_refused(
                old(dict).colors.rows@,
                products@,
                DictKind::Color,
                id,
                name_text(name),
                is_active,
                e@,
            ),
        },
{
    update_entry(&mut dict.colors, products, DictKind::Color, id, name, None, is_active)
}

/// Removes a color that no product uses.
pub fn delete_color(dict: &mut Dictionaries, products: &Vec<Product>, id: i64) -> (r: Result<
    i64,
    LedgerError,
>)
    ensures
        final(dict).categories == old(dict).categories,
        final(dict).sizes == old(dict).sizes,
        match r {
            Ok(n) => {
                let rows = old(dict).colors.rows@;
                &&& n == 1
                &&& id > 0
                &&& has_entry(rows, id)
                &&& !in_use(products@, DictKind::Color, rows[entry_position(rows, id)].name@)
                &&& final(dict).colors.rows@ == rows.remove(entry_position(rows, id))
                &&& final(dict).colors.next_id == old(dict).colors.next_id
            },
            Err(e) => *final(dict) == *old(dict) && removal_refused(
                old(dict).colors.rows@,
                products@,
                DictKind::Color,
                id,
                e@,
            ),
        },
{
    remove_entry(&mut dict.colors, products, DictKind::Color, id)
}

/// Updates a size.
pub fn update_size(
    dict: &mut Dictionaries,
    products: &Vec<Product>,
    id: i64,
    name: Option<String>,
    sort_order: Option<i64>,
    is_active: Option<i64>,
) -> (r: Result<i64, LedgerError>)
    ensures
        final(dict).categories == old(dict).categories,
        final(dict).colors == old(dict).colors,
        match r {
            Ok(changed) => entry_updated(
                &old(dict).sizes,
                &final(dict).sizes,
                products@,
                DictKind::Size,
                id,
                name_text(name),
                sort_order,
                is_active,
                changed,
            ),
            Err(e) => *final(dict) == *old(dict) && update_refused(
                old(dict).sizes.rows@,
                products@,
                DictKind::Size,
                id,
                name_text(name),
                is_active,
                e@,
            ),
        },
{
    update_entry(&mut dict.sizes, products, DictKind::Size, id, name, sort_order, is_active)
}

/// Removes a size that no product uses.
pub fn delete_size(dict: &mut Dictionaries, products: &Vec<Product>, id: i64) -> (r: Result<
    i64,
    LedgerError,
>)
    ensures
        final(dict).categories == old(dict).categories,
        final(dict).colors == old(dict).colors,
        match r {
            Ok(n) => {
                let rows = old(dict).sizes.rows@;
                &&& n == 1
                &&& id > 0
                &&& has_entry(rows, id)
                &&& !in_use(products@, DictKind::Size, rows[entry_position(rows, id)].name@)
                &&& final(dict).sizes.rows@ == rows.remove(entry_position(rows, id))
                &&& final(dict).sizes.next_id == old(dict).sizes.next_id
            },
            Err(e) => *final(dict) == *old(dict) && removal_refused(
                old(dict).sizes.rows@,
                products@,
                DictKind::Size,
                id,
                e@,
            ),
        },
{
    remove_entry(&mut dict.sizes, products, DictKind::Size, id)
}

/// Whether an entry is listed: all entries are where inactive ones are asked
/// for, else only the active ones.
pub open spec fn listed(e: DictEntry, include_inactive: bool) -> bool {
    include_inactive || e.is_active
}

/// The state of an entry as a number: one for active, zero for retired.
pub open spec fn active_flag(e: DictEntry) -> i64 {
    if e.is_active {
        1
    } else {
        0
    }
}

/// Whether entry `a` is listed before entry `b`: by sort order where that
/// counts, then by name, and entries alike in both in the order they were
/// added.
pub open spec fn entry_before(rows: Seq<DictEntry>, a: int, b: int, by_order: bool) -> bool {
    if by_order && rows[a].sort_order != rows[b].sort_order {
        rows[a].sort_order < rows[b].sort_order
    } else if rows[a].name@ != rows[b].name@ {
        text_le(rows[a].name@, rows[b].name@)
    } else {
        a < b
    }
}

/// `order` lists the positions of the first `n` entries, each exactly once,
/// in the order of the listing.
pub open spec fn arranges(rows: Seq<DictEntry>, order: Seq<usize>, by_order: bool, n: int) -> bool {
    &&& order.len() == n
    &&& forall|i: int| 0 <= i < order.len() ==> (#[trigger] order[i]) < n
    &&& forall|i: int, j: int|
        0 <= i < j < order.len() ==> entry_before(
            rows,
            (#[trigger] order[i]) as int,
            (#[trigger] order[j]) as int,
            by_order,
        )
}

/// Of two entries, one is listed before the other.
pub proof fn lemma_entry_before_total(rows: Seq<DictEntry>, a: int, b: int, by_order: bool)
    requires
        a != b,
    ensures
        entry_before(rows, a, b, by_order) || entry_before(rows, b, a, by_order),
{
    lemma_text_le_total(rows[a].name@, rows[b].name@);
}

/// What is listed before an entry is listed before everything the entry is
/// listed before.
pub proof fn lemma_entry_before_transitive(
    rows: Seq<DictEntry>,
    a: int,
    b: int,
    c: int,
    by_order: bool,
)
    requires
        entry_before(rows, a, b, by_order),
        entry_before(rows, b, c, by_order),
    ensures
        entry_before(rows, a, c, by_order),
{
    let na = rows[a].name@;
    let nb = rows[b].name@;
    let nc = rows[c].name@;
    if text_le(na, nb) && text_le(nb, nc) {
        lemma_text_le_transitive(na, nb, nc);
    }
    if text_le(na, nb) && text_le(nb, na) {
        lemma_text_le_antisymmetric(na, nb);
    }
    if text_le(nb, nc) && text_le(nc, nb) {
        lemma_text_le_antisymmetric(nb, nc);
    }
    if text_le(na, nc) && text_le(nc, na) {
        lemma_text_le_antisymmetric(na, nc);
    }
}

fn entry_precedes(rows: &Vec<DictEntry>, names: &Vec<Vec<char>>, a: usize, b: usize, by_order: bool)
    -> (r: bool)
    requires
        a < rows.len(),
        b < rows.len(),
        names@.len() == rows@.len(),
        forall|i: int| 0 <= i < rows@.len() ==> (#[trigger] names@[i])@ == rows@[i].name@,
    ensures
        r == entry_before(rows@, a as int, b as int, by_order),
{
    if by_order && rows[a].sort_order != rows[b].sort_order {
        return rows[a].sort_order < rows[b].sort_order;
    }
    let ab = comes_first(&names[a], &names[b]);
    let ba = comes_first(&names[b], &names[a]);
    proof {
        lemma_text_le_total(rows@[a as int].name@, rows@[b as int].name@);
        if ab && ba {
            lemma_text_le_antisymmetric(rows@[a as int].name@, rows@[b as int].name@);
        }
        if rows@[a as int].name@ == rows@[b as int].name@ {
            assert(ab && ba);
        }
    }
    if ab && ba {
        a < b
    } else {
        ab
    }
}

/// The positions of the entries in the order of the listing.
fn arranged(rows: &Vec<DictEntry>, by_order: bool) -> (order: Vec<usize>)
    ensures
        arranges(rows@, order@, by_order, rows@.len() as int),
{
    let mut names: Vec<Vec<char>> = Vec::new();
    let mut i: usize = 0;
    while i < rows.len()
        invariant
            i <= rows.len(),
            names@.len() == i,
            forall|j: int| 0 <= j < i ==> (#[trigger] names@[j])@ == rows@[j].name@,
        decreases rows.len() - i,
    {
        names.push(chars_of(rows[i].name.as_str()));
        i += 1;
    }
    let mut order: Vec<usize> = Vec::new();
    let mut n: usize = 0;
    while n < rows.len()
        invariant
            n <= rows.len(),
            names@.len() == rows@.len(),
            forall|j: int| 0 <= j < rows@.len() ==> (#[trigger] names@[j])@ == rows@[j].name@,
            arranges(rows@, order@, by_order, n as int),
        decreases rows.len() - n,
    {
        let mut p: usize = order.len();
        while p > 0 && entry_precedes(rows, &names, n, order[p - 1], by_order)
            invariant
                p <= order.len(),
                n < rows.len(),
                names@.len() == rows@.len(),
                forall|j: int| 0 <= j < rows@.len() ==> (#[trigger] names@[j])@ == rows@[j].name@,
                arranges(rows@, order@, by_order, n as int),
                forall|i: int|
                    p <= i < order.len() ==> entry_before(
                        rows@,
                        n as int,
                        (#[trigger] order@[i]) as int,
                        by_order,
                    ),
            decreases p,
        {
            p -= 1;
        }
        let ghost before = order@;
        order.insert(p, n);
        proof {
            assert(order@ == before.insert(p as int, n));
            assert forall|i: int| 0 <= i < order@.len() implies (#[trigger] order@[i]) < n + 1 by {
                if i < p {
                    assert(order@[i] == before[i]);
                } else if i > p {
                    assert(order@[i] == before[i - 1]);
                }
            }
            assert forall|i: int, j: int| 0 <= i < j < order@.len() implies entry_before(
                rows@,
                (#[trigger] order@[i]) as int,
                (#[trigger] order@[j]) as int,
                by_order,
            ) by {
                if j < p {
                    assert(order@[i] == before[i] && order@[j] == before[j]);
                } else if j == p {
                    assert(order@[i] == before[i]);
                    let last = before[p - 1] as int;
                    assert(before[p - 1] < n);
                    lemma_entry_before_total(rows@, n as int, last, by_order);
                    if i < p - 1 {
                        assert(entry_before(rows@, before[i] as int, last, by_order));
                        lemma_entry_before_transitive(
                            rows@,
                            before[i] as int,
                            last,
                            n as int,
                            by_order,
                        );
                    }
                } else {
                    assert(order@[j] == before[j - 1]);
                    if i < p {
                        assert(order@[i] == before[i]);
                        assert(entry_before(
                            rows@,
                            before[i] as int,
                            before[j - 1] as int,
                            by_order,
                        ));
                    } else if i == p {
                        assert(entry_before(rows@, n as int, before[j - 1] as int, by_order));
                    } else {
                        assert(order@[i] == before[i - 1]);
                        assert(entry_before(
                            rows@,
                            before[i - 1] as int,
                            before[j - 1] as int,
                            by_order,
                        ));
                    }
                }
            }
        }
        n += 1;
    }
    order
}

/// The listed entries among the first `n` positions of an order.
pub open spec fn listed_entries(
    rows: Seq<DictEntry>,
    order: Seq<usize>,
    include_inactive: bool,
    n: nat,
) -> Seq<DictEntry>
    decreases n,
{
    if n == 0 {
        Seq::empty()
    } else {
        let rest = listed_entries(rows, order, include_inactive, (n - 1) as nat);
        let e = rows[order[n - 1] as int];
        if listed(e, include_inactive) {
            rest.push(e)
        } else {
            rest
        }
    }
}

/// A category row shows the entry.
pub open spec fn shows_category(r: CategoryRow, e: DictEntry) -> bool {
    &&& r.id == e.id
    &&& r.name@ == e.name@
    &&& r.is_active == active_flag(e)
    &&& r.created_at == e.created_at
}

/// A color row shows the entry.
pub open spec fn shows_color(r: ColorRow, e: DictEntry) -> bool {
    &&& r.id == e.id
    &&& r.name@ == e.name@
    &&& r.is_active == active_flag(e)
    &&& r.created_at == e.created_at
}

/// A size row shows the entry.
pub open spec fn shows_size(r: SizeRow, e: DictEntry) -> bool {
    &&& r.id == e.id
    &&& r.name@ == e.name@
    &&& r.sort_order == e.sort_order
    &&& r.is_active == active_flag(e)
    &&& r.created_at == e.created_at
}

/// Lists the categories by name: all of them, or only the active ones.
pub fn list_categories_full(dict: &Dictionaries, include_inactive: bool) -> (r: Vec<CategoryRow>)
    ensures
        exists|order: Seq<usize>| #[trigger]
            arranges(
                dict.categories.rows@,
                order,
                false,
                dict.categories.rows@.len() as int,
            ) && {
                let shown = listed_entries(
                    dict.categories.rows@,
                    order,
                    include_inactive,
                    order.len(),
                );
                r@.len() == shown.len() && forall|i: int|
                    0 <= i < r@.len() ==> shows_category(#[trigger] r@[i], shown[i])
            },
{
    let rows = &dict.categories.rows;
    let order = arranged(rows, false);
    let mut out: Vec<CategoryRow> = Vec::new();
    let mut k: usize = 0;
    while k < order.len()
        invariant
            k <= order.len(),
            arranges(rows@, order@, false, rows@.len() as int),
            out@.len() == listed_entries(rows@, order@, include_inactive, k as nat).len(),
            forall|i: int|
                0 <= i < out@.len() ==> shows_category(
                    #[trigger] out@[i],
                    listed_entries(rows@, order@, include_inactive, k as nat)[i],
                ),
        decreases order.len() - k,
    {
        let e = &rows[order[k]];
        if include_inactive || e.is_active {
            out.push(
                CategoryRow {
                    id: e.id,
                    name: e.name.clone(),
                    is_active: if e.is_active {
                        1
                    } else {
                        0
                    },
                    created_at: e.created_at,
                },
            );
        }
        k += 1;
    }
    out
}

/// Lists the colors by name: all of them, or only the active ones.
pub fn list_colors_full(dict: &Dictionaries, include_inactive: bool) -> (r: Vec<ColorRow>)
    ensures
        exists|order: Seq<usize>| #[trigger]
            arranges(dict.colors.rows@, order, false, dict.colors.rows@.len() as int) && {
                let shown = listed_entries(
                    dict.colors.rows@,
                    order,
                    include_inactive,
                    order.len(),
                );
                r@.len() == shown.len() && forall|i: int|
                    0 <= i < r@.len() ==> shows_color(#[trigger] r@[i], shown[i])
            },
{
    let rows = &dict.colors.rows;
    let order = arranged(rows, false);
    let mut out: Vec<ColorRow> = Vec::new();
    let mut k: usize = 0;
    while k < order.len()
        invariant
            k <= order.len(),
            arranges(rows@, order@, false, rows@.len() as int),
            out@.len() == listed_entries(rows@, order@, include_inactive, k as nat).len(),
            forall|i: int|
                0 <= i < out@.len() ==> shows_color(
                    #[trigger] out@[i],
                    listed_entries(rows@, order@, include_inactive, k as nat)[i],
                ),
        decreases order.len() - k,
    {
        let e = &rows[order[k]];
        if include_inactive || e.is_active {
            out.push(
                ColorRow {
                    id: e.id,
                    name: e.name.clone(),
                    is_active: if e.is_active {
                        1
                    } else {
                        0
                    },
                    created_at: e.created_at,
                },
            );
        }
        k += 1;
    }
    out
}

/// Lists the sizes by sort order and then by name: all of them, or only the
/// active ones.
pub fn list_sizes_full(dict: &Dictionaries, include_inactive: bool) -> (r: Vec<SizeRow>)
    ensures
        exists|order: Seq<usize>| #[trigger]
            arranges(dict.sizes.rows@, order, true, dict.sizes.rows@.len() as int) && {
                let shown = listed_entries(dict.sizes.rows@, order, include_inactive, order.len());
                r@.len() == shown.len() && forall|i: int|
                    0 <= i < r@.len() ==> shows_size(#[trigger] r@[i], shown[i])
            },
{
    let rows = &dict.sizes.rows;
    let order = arranged(rows, true);
    let mut out: Vec<SizeRow> = Vec::new();
    let mut k: usize = 0;
    while k < order.len()
        invariant
            k <= order.len(),
            arranges(rows@, order@, true, rows@.len() as int),
            out@.len() == listed_entries(rows@, order@, include_inactive, k as nat).len(),
            forall|i: int|
                0 <= i < out@.len() ==> shows_size(
                    #[trigger] out@[i],
                    listed_entries(rows@, order@, include_inactive, k as nat)[i],
                ),
        decreases order.len() - k,
    {
        let e = &rows[order[k]];
        if include_inactive || e.is_active {
            out.push(
                SizeRow {
                    id: e.id,
                    name: e.name.clone(),
                    sort_order: e.sort_order,
                    is_active: if e.is_active {
                        1
                    } else {
                        0
                    },
                    created_at: e.created_at,
                },
            );
        }
        k += 1;
    }
    out
}

} // verus!

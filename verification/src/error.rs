//! The errors a ledger operation can end in.

use crate::kinds::{DictKind, Location};
use crate::text::{decimal, push_decimal, push_signed, signed_decimal};
use vstd::prelude::*;
use vstd::string::*;

verus! {

/// The five families every error belongs to.
#[derive(Clone, Copy, Debug, PartialEq, Eq, Structural)]
pub enum ErrorKind {
    Validation,
    NotFound,
    InsufficientStock,
    Conflict,
    Integrity,
}

/// Why an operation was refused. An operation that returns one of these has
/// changed nothing.
#[derive(Debug)]
pub enum LedgerError {
    /// The basket of a sale or of a transfer holds no line.
    EmptyBasket,
    /// An exchange hands out nothing.
    NothingGiven,
    /// A quantity that must be at least one is not.
    QuantityNotPositive,
    /// A transfer line names the same place as source and destination.
    SameLocation,
    /// A payment method is required and the one given is not accepted.
    PaymentMethodRejected,
    /// A required text field is blank.
    FieldRequired { field: String },
    /// A text field has more characters than allowed.
    FieldTooLong { field: String, max: usize },
    /// The name of a dictionary entry is blank.
    NameRequired { kind: DictKind },
    /// An amount that must be positive is not.
    AmountNotPositive,
    /// A row identifier is zero or negative.
    InvalidId,
    /// An opening stock count is negative.
    NegativeStock,
    /// No product has this barcode.
    ProductNotFound { barcode: String },
    /// There is no sale group left to undo.
    NoSaleToUndo,
    /// There is no transfer group left to undo.
    NoTransferToUndo,
    /// No dictionary entry has the given identifier.
    EntryNotFound { kind: DictKind },
    /// No return group has the given identifier.
    ReturnGroupNotFound,
    /// A location does not hold what a line asks for.
    InsufficientStock { barcode: String, location: Location, available: i64, requested: i64 },
    /// The referenced sale line has nothing left to give back; `exchange`
    /// says whether an exchange or a refund asked.
    FullyRefunded { sold: i64, refunded: i64, exchange: bool },
    /// More comes back than the sale line still allows; `exchange` says
    /// whether an exchange or a refund asked.
    RefundExceedsRemaining { sold: i64, refunded: i64, remaining: i64, exchange: bool },
    /// A product with this barcode already exists.
    DuplicateBarcode { barcode: String },
    /// A dictionary entry with this name already exists.
    DuplicateName,
    /// A dictionary entry is still used by products; `removing` says whether
    /// it was to be removed or only retired.
    EntryInUse { kind: DictKind, removing: bool },
    /// All 999 sequence numbers of a product-code prefix are taken.
    CodeSpaceExhausted { prefix: String },
    /// A counter or amount would leave the range of a 64-bit integer.
    OutOfRange,
}

/// A [`LedgerError`] with its texts as sequences of characters.
pub enum ErrorView {
    EmptyBasket,
    NothingGiven,
    QuantityNotPositive,
    SameLocation,
    PaymentMethodRejected,
    FieldRequired { field: Seq<char> },
    FieldTooLong { field: Seq<char>, max: nat },
    NameRequired { kind: DictKind },
    AmountNotPositive,
    InvalidId,
    NegativeStock,
    ProductNotFound { barcode: Seq<char> },
    NoSaleToUndo,
    NoTransferToUndo,
    EntryNotFound { kind: DictKind },
    ReturnGroupNotFound,
    InsufficientStock { barcode: Seq<char>, location: Location, available: int, requested: int },
    FullyRefunded { sold: int, refunded: int, exchange: bool },
    RefundExceedsRemaining { sold: int, refunded: int, remaining: int, exchange: bool },
    DuplicateBarcode { barcode: Seq<char> },
    DuplicateName,
    EntryInUse { kind: DictKind, removing: bool },
    CodeSpaceExhausted { prefix: Seq<char> },
    OutOfRange,
}

impl View for LedgerError {
    type V = ErrorView;

    open spec fn view(&self) -> ErrorView {
        match *self {
            LedgerError::EmptyBasket => ErrorView::EmptyBasket,
            LedgerError::NothingGiven => ErrorView::NothingGiven,
            LedgerError::QuantityNotPositive => ErrorView::QuantityNotPositive,
            LedgerError::SameLocation => ErrorView::SameLocation,
            LedgerError::PaymentMethodRejected => ErrorView::PaymentMethodRejected,
            LedgerError::FieldRequired { field } => ErrorView::FieldRequired { field: field@ },
            LedgerError::FieldTooLong { field, max } => ErrorView::FieldTooLong {
                field: field@,
                max: max as nat,
            },
            LedgerError::NameRequired { kind } => ErrorView::NameRequired { kind },
            LedgerError::AmountNotPositive => ErrorView::AmountNotPositive,
            LedgerError::InvalidId => ErrorView::InvalidId,
            LedgerError::NegativeStock => ErrorView::NegativeStock,
            LedgerError::ProductNotFound { barcode } => ErrorView::ProductNotFound {
                barcode: barcode@,
            },
            LedgerError::NoSaleToUndo => ErrorView::NoSaleToUndo,
            LedgerError::NoTransferToUndo => ErrorView::NoTransferToUndo,
            LedgerError::EntryNotFound { kind } => ErrorView::EntryNotFound { kind },
            LedgerError::ReturnGroupNotFound => ErrorView::ReturnGroupNotFound,
            LedgerError::InsufficientStock {
                barcode,
                location,
                available,
                requested,
            } => ErrorView::InsufficientStock {
                barcode: barcode@,
                location,
                available: available as int,
                requested: requested as int,
            },
            LedgerError::FullyRefunded { sold, refunded, exchange } => ErrorView::FullyRefunded {
                sold: sold as int,
                refunded: refunded as int,
                exchange,
            },
            LedgerError::RefundExceedsRemaining {
                sold,
                refunded,
                remaining,
                exchange,
            } => ErrorView::RefundExceedsRemaining {
                sold: sold as int,
                refunded: refunded as int,
                remaining: remaining as int,
                exchange,
            },
            LedgerError::DuplicateBarcode { barcode } => ErrorView::DuplicateBarcode {
                barcode: barcode@,
            },
            LedgerError::DuplicateName => ErrorView::DuplicateName,
            LedgerError::EntryInUse { kind, removing } => ErrorView::EntryInUse { kind, removing },
            LedgerError::CodeSpaceExhausted { prefix } => ErrorView::CodeSpaceExhausted {
                prefix: prefix@,
            },
            LedgerError::OutOfRange => ErrorView::OutOfRange,
        }
    }
}

/// The family of an error, on its view.
pub open spec fn kind_of(e: ErrorView) -> ErrorKind {
    match e {
        ErrorView::EmptyBasket
        | ErrorView::NothingGiven
        | ErrorView::QuantityNotPositive
        | ErrorView::SameLocation
        | ErrorView::PaymentMethodRejected
        | ErrorView::FieldRequired { .. }
        | ErrorView::FieldTooLong { .. }
        | ErrorView::NameRequired { .. }
        | ErrorView::AmountNotPositive
        | ErrorView::InvalidId
        | ErrorView::NegativeStock => ErrorKind::Validation,
        ErrorView::ProductNotFound { .. }
        | ErrorView::NoSaleToUndo
        | ErrorView::NoTransferToUndo
        | ErrorView::EntryNotFound { .. }
        | ErrorView::ReturnGroupNotFound => ErrorKind::NotFound,
        ErrorView::InsufficientStock { .. } => ErrorKind::InsufficientStock,
        ErrorView::FullyRefunded { .. }
        | ErrorView::RefundExceedsRemaining { .. }
        | ErrorView::DuplicateBarcode { .. }
        | ErrorView::DuplicateName
        | ErrorView::EntryInUse { .. }
        | ErrorView::CodeSpaceExhausted { .. } => ErrorKind::Conflict,
        ErrorView::OutOfRange => ErrorKind::Integrity,
    }
}

impl LedgerError {
    /// The family this error belongs to.
    pub fn kind(&self) -> (k: ErrorKind)
        ensures
            k == kind_of(self@),
    {
        match self {
            LedgerError::EmptyBasket
            | LedgerError::NothingGiven
            | LedgerError::QuantityNotPositive
            | LedgerError::SameLocation
            | LedgerError::PaymentMethodRejected
            | LedgerError::FieldRequired { .. }
            | LedgerError::FieldTooLong { .. }
            | LedgerError::NameRequired { .. }
            | LedgerError::AmountNotPositive
            | LedgerError::InvalidId
            | LedgerError::NegativeStock => ErrorKind::Validation,
            LedgerError::ProductNotFound { .. }
            | LedgerError::NoSaleToUndo
            | LedgerError::NoTransferToUndo
            | LedgerError::EntryNotFound { .. }
            | LedgerError::ReturnGroupNotFound => ErrorKind::NotFound,
            LedgerError::InsufficientStock { .. } => ErrorKind::InsufficientStock,
            LedgerError::FullyRefunded { .. }
            | LedgerError::RefundExceedsRemaining { .. }
            | LedgerError::DuplicateBarcode { .. }
            | LedgerError::DuplicateName
            | LedgerError::EntryInUse { .. }
            | LedgerError::CodeSpaceExhausted { .. } => ErrorKind::Conflict,
            LedgerError::OutOfRange => ErrorKind::Integrity,
        }
    }
}

/// The code of a location, as it appears in messages.
pub open spec fn location_code(loc: Location) -> Seq<char> {
    match loc {
        Location::Store => "MAGAZA"@,
        Location::Warehouse => "DEPO"@,
    }
}

/// The word for the entry of a dictionary, as it starts a sentence.
pub open spec fn entry_word(kind: DictKind) -> Seq<char> {
    match kind {
        DictKind::Category => "Kategori"@,
        DictKind::Color => "Renk"@,
        DictKind::Size => "Beden"@,
    }
}

/// The word for the entry of a dictionary, as it follows another word.
pub open spec fn entry_word_within(kind: DictKind) -> Seq<char> {
    match kind {
        DictKind::Category => "kategori"@,
        DictKind::Color => "renk"@,
        DictKind::Size => "beden"@,
    }
}

/// The three quantities of a refund that went too far, as they end a message.
pub open spec fn quantities_text(sold: int, refunded: int, remaining: int) -> Seq<char> {
    signed_decimal(sold) + ", daha önce iade: "@ + signed_decimal(refunded) + ", kalan: "@
        + signed_decimal(remaining) + ")"@
}

/// The message of an error, in the language of the shop.
pub open spec fn message_of(e: ErrorView) -> Seq<char> {
    match e {
        ErrorView::EmptyBasket => "Sepet boş"@,
        ErrorView::NothingGiven => "Değişimde verilecek sepet boş"@,
        ErrorView::QuantityNotPositive => "İade adedi 1+ olmalı"@,
        ErrorView::SameLocation => "Nereden ve nereye aynı olamaz"@,
        ErrorView::PaymentMethodRejected => "diff_payment_method sadece CARD/KART veya CASH/NAKİT olabilir"@,
        ErrorView::FieldRequired { field } => field + " zorunlu"@,
        ErrorView::FieldTooLong { field, max } => field + " çok uzun (max "@ + decimal(max)
            + ")."@,
        ErrorView::NameRequired { kind } => entry_word(kind) + " adı boş olamaz"@,
        ErrorView::AmountNotPositive => "Tutar 0'dan büyük sayı olmalı"@,
        ErrorView::InvalidId => "id geçersiz"@,
        ErrorView::NegativeStock => "Başlangıç stoğu negatif olamaz"@,
        ErrorView::ProductNotFound { barcode } => "Ürün bulunamadı: "@ + barcode,
        ErrorView::NoSaleToUndo => "Geri alınacak satış bulunamadı"@,
        ErrorView::NoTransferToUndo => "Geri alınacak transfer bulunamadı"@,
        ErrorView::EntryNotFound { kind } => entry_word(kind) + " bulunamadı"@,
        ErrorView::ReturnGroupNotFound => "İade kaydı bulunamadı"@,
        ErrorView::InsufficientStock { barcode, location, available, requested } => {
            "Yetersiz stok: "@ + barcode + " ("@ + location_code(location) + " stok: "@
                + signed_decimal(available) + ", istenen: "@ + signed_decimal(requested) + ")"@
        },
        ErrorView::FullyRefunded { exchange, .. } => if exchange {
            "Bu satış satırı daha önce tamamen iade/değişim yapılmış"@
        } else {
            "Bu satış satırı daha önce tamamen iade edilmiş"@
        },
        ErrorView::RefundExceedsRemaining { sold, refunded, remaining, exchange } => (if exchange {
            "İade edilen adet satıştan fazla olamaz (satılan: "@
        } else {
            "İade adedi satıştan fazla olamaz (satılan: "@
        }) + quantities_text(sold, refunded, remaining),
        ErrorView::DuplicateBarcode { barcode } => "Bu barkod zaten kayıtlı: "@ + barcode,
        ErrorView::DuplicateName => "Bu ad zaten kayıtlı"@,
        ErrorView::EntryInUse { kind, removing } => "Bu "@ + entry_word_within(kind) + (if removing {
            " ürünlerde kullanılıyor; silinemez / pasife alınamaz"@
        } else {
            " ürünlerde kullanılıyor; pasife alınamaz"@
        }),
        ErrorView::CodeSpaceExhausted { prefix } => prefix + " için product_code limiti doldu (999)"@,
        ErrorView::OutOfRange => "Sayı sınırların dışında"@,
    }
}

fn entry_text(kind: DictKind) -> (r: &'static str)
    ensures
        r@ == entry_word(kind),
{
    match kind {
        DictKind::Category => "Kategori",
        DictKind::Color => "Renk",
        DictKind::Size => "Beden",
    }
}

fn entry_text_within(kind: DictKind) -> (r: &'static str)
    ensures
        r@ == entry_word_within(kind),
{
    match kind {
        DictKind::Category => "kategori",
        DictKind::Color => "renk",
        DictKind::Size => "beden",
    }
}

fn push_quantities(out: &mut String, sold: i64, refunded: i64, remaining: i64)
    ensures
        final(out)@ == old(out)@ + quantities_text(sold as int, refunded as int, remaining as int),
{
    push_signed(out, sold);
    out.append(", daha önce iade: ");
    push_signed(out, refunded);
    out.append(", kalan: ");
    push_signed(out, remaining);
    out.append(")");
    assert(out@ =~= old(out)@ + quantities_text(sold as int, refunded as int, remaining as int));
}

impl LedgerError {
    /// The message of the error, in the language of the shop.
    pub fn message(&self) -> (r: String)
        ensures
            r@ == message_of(self@),
    {
        match self {
            LedgerError::EmptyBasket => String::from_str("Sepet boş"),
            LedgerError::NothingGiven => String::from_str("Değişimde verilecek sepet boş"),
            LedgerError::QuantityNotPositive => String::from_str("İade adedi 1+ olmalı"),
            LedgerError::SameLocation => String::from_str("Nereden ve nereye aynı olamaz"),
            LedgerError::PaymentMethodRejected => String::from_str(
                "diff_payment_method sadece CARD/KART veya CASH/NAKİT olabilir",
            ),
            LedgerError::FieldRequired { field } => {
                let mut out = String::from_str(field.as_str());
                out.append(" zorunlu");
                out
            },
            LedgerError::FieldTooLong { field, max } => {
                let mut out = String::from_str(field.as_str());
                out.append(" çok uzun (max ");
                push_decimal(&mut out, *max as u64);
                out.append(").");
                out
            },
            LedgerError::NameRequired { kind } => {
                let mut out = String::from_str(entry_text(*kind));
                out.append(" adı boş olamaz");
                out
            },
            LedgerError::AmountNotPositive => String::from_str("Tutar 0'dan büyük sayı olmalı"),
            LedgerError::InvalidId => String::from_str("id geçersiz"),
            LedgerError::NegativeStock => String::from_str("Başlangıç stoğu negatif olamaz"),
            LedgerError::ProductNotFound { barcode } => {
                let mut out = String::from_str("Ürün bulunamadı: ");
                out.append(barcode.as_str());
                out
            },
            LedgerError::NoSaleToUndo => String::from_str("Geri alınacak satış bulunamadı"),
            LedgerError::NoTransferToUndo => String::from_str("Geri alınacak transfer bulunamadı"),
            LedgerError::EntryNotFound { kind } => {
                let mut out = String::from_str(entry_text(*kind));
                out.append(" bulunamadı");
                out
            },
            LedgerError::ReturnGroupNotFound => String::from_str("İade kaydı bulunamadı"),
            LedgerError::InsufficientStock { barcode, location, available, requested } => {
                let mut out = String::from_str("Yetersiz stok: ");
                out.append(barcode.as_str());
                out.append(" (");
                out.append(
                    match location {
                        Location::Store => "MAGAZA",
                        Location::Warehouse => "DEPO",
                    },
                );
                out.append(" stok: ");
                push_signed(&mut out, *available);
                out.append(", istenen: ");
                push_signed(&mut out, *requested);
                out.append(")");
                out
            },
            LedgerError::FullyRefunded { exchange, .. } => if *exchange {
                String::from_str("Bu satış satırı daha önce tamamen iade/değişim yapılmış")
            } else {
                String::from_str("Bu satış satırı daha önce tamamen iade edilmiş")
            },
            LedgerError::RefundExceedsRemaining { sold, refunded, remaining, exchange } => {
                let mut out = if *exchange {
                    String::from_str("İade edilen adet satıştan fazla olamaz (satılan: ")
                } else {
                    String::from_str("İade adedi satıştan fazla olamaz (satılan: ")
                };
                push_quantities(&mut out, *sold, *refunded, *remaining);
                out
            },
            LedgerError::DuplicateBarcode { barcode } => {
                let mut out = String::from_str("Bu barkod zaten kayıtlı: ");
                out.append(barcode.as_str());
                out
            },
            LedgerError::DuplicateName => String::from_str("Bu ad zaten kayıtlı"),
            LedgerError::EntryInUse { kind, removing } => {
                let mut out = String::from_str("Bu ");
                out.append(entry_text_within(*kind));
                if *removing {
                    out.append(" ürünlerde kullanılıyor; silinemez / pasife alınamaz");
                } else {
                    out.append(" ürünlerde kullanılıyor; pasife alınamaz");
                }
                out
            },
            LedgerError::CodeSpaceExhausted { prefix } => {
                let mut out = String::from_str(prefix.as_str());
                out.append(" için product_code limiti doldu (999)");
                out
            },
            LedgerError::OutOfRange => String::from_str("Sayı sınırların dışında"),
        }
    }
}

} // verus!

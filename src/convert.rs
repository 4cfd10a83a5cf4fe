//! Classification of the export's rows by their description, and the rows they become.

use crate::kryptosekken::{KsRow, TxType};
use crate::money::{
    abs_int, code_of, currency_of_code, upper_of, Currency, Decimal, Money, MoneyError,
};
use crate::text::{has_prefix, same_text, starts_with};
use crate::xapo::XapoRow;
use vstd::prelude::*;

verus! {

/// Why rows could not be converted.
#[derive(Debug, PartialEq, Eq)]
pub enum ConvertError {
    /// A description that names no known kind of transaction.
    UnknownTxType(String),
    CurrencyParse(MoneyError),
    /// A trade between currencies that is not handled.
    Unsupported(String),
}

/// What `str::split_whitespace` makes of a string.
pub uninterp spec fn whitespace_words(s: Seq<char>) -> Seq<Seq<char>>;

/// Relies on `str::split_whitespace`: the words depend on the characters alone.
#[verifier::external_body]
fn split_words(s: &str) -> (r: Vec<String>)
    ensures
        r@.map_values(|w: String| w@) == whitespace_words(s@),
{
    s.split_whitespace().map(String::from).collect()
}

/// The amount's magnitude in bitcoin.
pub open spec fn is_btc_of(m: Option<Money>, amount: Decimal) -> bool {
    &&& m is Some
    &&& m->0.currency == Currency::Btc
    &&& m->0.amount.m() == abs_int(amount.m())
    &&& m->0.amount.s() == amount.s()
}

/// `k` is the row made from `x`: its kind and note as given, no fee, and the amount's
/// magnitude in bitcoin as incoming or as outgoing.
pub open spec fn made_row(k: KsRow, x: XapoRow, t: TxType, incoming: bool, note: Seq<char>) -> bool {
    &&& k.time == x.time
    &&& k.tx_type == t
    &&& k.fee is None
    &&& k.note@ == note
    &&& if incoming {
        is_btc_of(k.incoming, x.amount) && k.outgoing is None
    } else {
        is_btc_of(k.outgoing, x.amount) && k.incoming is None
    }
}

pub open spec fn is_transfer_out(d: Seq<char>) -> bool {
    d == "Lightning network transaction"@ || d == "Sent BTC"@
}

pub open spec fn is_move(d: Seq<char>) -> bool {
    has_prefix(d, "Move "@)
}

pub open spec fn is_exchange(d: Seq<char>) -> bool {
    has_prefix(d, "Exchange "@)
}

/// The description matches one of the exact descriptions.
pub open spec fn is_exact(d: Seq<char>) -> bool {
    is_transfer_out(d) || d == "Daily USD interest"@ || d == "Daily BTC interest"@ || d
        == "Card Cashback Redemption"@
}

/// The code that word `i` of an exchange's description gives, in upper case; empty where
/// the description has no such word.
pub open spec fn word_code(d: Seq<char>, i: int) -> Seq<char> {
    if i < whitespace_words(d).len() {
        upper_of(whitespace_words(d)[i])
    } else {
        Seq::empty()
    }
}

/// The currency of a word of an exchange's description.
pub open spec fn word_currency(d: Seq<char>, i: int) -> Option<Currency> {
    currency_of_code(word_code(d, i))
}

/// A trade that is refused: neither from bitcoin nor to dollars.
pub open spec fn unsupported_trade(from: Currency, to: Currency) -> bool {
    from != Currency::Btc && to != Currency::Usd
}

/// The row converts without error.
pub open spec fn converts(d: Seq<char>) -> bool {
    ||| is_exact(d)
    ||| (!is_exact(d) && is_move(d))
    ||| (!is_exact(d) && !is_move(d) && is_exchange(d) && word_currency(d, 1)
        is Some && word_currency(d, 3) is Some && !unsupported_trade(
        word_currency(d, 1)->0,
        word_currency(d, 3)->0,
    ))
}

/// The row is dropped: a movement between the client's own accounts.
pub open spec fn skipped(d: Seq<char>) -> bool {
    !is_exact(d) && is_move(d)
}

/// `k` is the row that `x` becomes.
pub open spec fn converted_row(x: XapoRow, k: KsRow) -> bool {
    let d = x.description@;
    let s = x.sub_description@;
    if is_transfer_out(d) {
        made_row(k, x, TxType::TransferOut, false, "CHECK! sub_descr="@ + s)
    } else if d == "Daily USD interest"@ {
        made_row(k, x, TxType::Interest, true, "USD "@ + s)
    } else if d == "Daily BTC interest"@ {
        made_row(k, x, TxType::Interest, true, "BTC "@ + s)
    } else if d == "Card Cashback Redemption"@ {
        made_row(k, x, TxType::Income, true, "Cashback ("@ + s + ")"@)
    } else {
        made_row(k, x, TxType::Consumption, false, s)
    }
}

/// `e` is the error with which `x` fails.
pub open spec fn conversion_error(x: XapoRow, e: ConvertError) -> bool {
    let d = x.description@;
    if !is_exchange(d) {
        e matches ConvertError::UnknownTxType(u) && u@ == d
    } else if word_currency(d, 1) is None {
        e matches ConvertError::CurrencyParse(MoneyError::UnknownCurrency(u)) && u@ == word_code(d, 1)
    } else if word_currency(d, 3) is None {
        e matches ConvertError::CurrencyParse(MoneyError::UnknownCurrency(u)) && u@ == word_code(d, 3)
    } else {
        e matches ConvertError::Unsupported(u) && u@ == "Trade from "@ + code_of(
            word_currency(d, 1)->0,
        ) + " to "@ + code_of(word_currency(d, 3)->0)
    }
}

/// The outcome for one row: an error, no row, or the row it becomes.
pub open spec fn row_outcome(x: XapoRow, r: Result<Option<KsRow>, ConvertError>) -> bool {
    let d = x.description@;
    if !converts(d) {
        r is Err && conversion_error(x, r->Err_0)
    } else if skipped(d) {
        r == Ok::<Option<KsRow>, ConvertError>(None)
    } else {
        r is Ok && r->Ok_0 is Some && converted_row(x, r->Ok_0->0)
    }
}

fn btc(x: &XapoRow) -> (r: Option<Money>)
    ensures
        is_btc_of(r, x.amount),
{
    Some(Money::new(x.amount.abs(), Currency::Btc))
}

fn joined(a: &str, b: &str) -> (r: String)
    ensures
        r@ == a@ + b@,
{
    a.to_owned().concat(b)
}

fn xfer_out(x: &XapoRow) -> (r: KsRow)
    ensures
        made_row(r, *x, TxType::TransferOut, false, "CHECK! sub_descr="@ + x.sub_description@),
{
    let note = joined("CHECK! sub_descr=", x.sub_description.as_str());
    KsRow::new(x.time, TxType::TransferOut, None, btc(x), None, note)
}

fn income_tx(x: &XapoRow, note: String, tx_type: TxType) -> (r: KsRow)
    ensures
        made_row(r, *x, tx_type, true, note@),
{
    KsRow::new(x.time, tx_type, btc(x), None, None, note)
}

fn interest_tx(x: &XapoRow, code: &str) -> (r: KsRow)
    ensures
        made_row(r, *x, TxType::Interest, true, code@ + " "@ + x.sub_description@),
{
    let note = joined(code, " ").concat(x.sub_description.as_str());
    income_tx(x, note, TxType::Interest)
}

fn cashback_tx(x: &XapoRow) -> (r: KsRow)
    ensures
        made_row(r, *x, TxType::Income, true, "Cashback ("@ + x.sub_description@ + ")"@),
{
    let note = joined("Cashback (", x.sub_description.as_str()).concat(")");
    income_tx(x, note, TxType::Income)
}

/// The currency that word `i` of `words` names; a missing word names none, with an empty code.
fn word_currency_of(words: &Vec<String>, i: usize) -> (r: Result<Currency, MoneyError>)
    ensures
        ({
            let code = if i < words@.len() { upper_of(words@[i as int]@) } else { Seq::empty() };
            match currency_of_code(code) {
                Some(c) => r == Ok::<Currency, MoneyError>(c),
                None => r is Err && (r->Err_0 matches MoneyError::UnknownCurrency(u) && u@ == code),
            }
        }),
{
    if i < words.len() {
        Currency::parse_code(words[i].as_str())
    } else {
        Currency::from_upper(String::new())
    }
}

fn consumption_tx(x: &XapoRow) -> (r: Result<KsRow, ConvertError>)
    requires
        is_exchange(x.description@),
    ensures
        match r {
            Ok(k) => made_row(k, *x, TxType::Consumption, false, x.sub_description@),
            Err(e) => conversion_error(*x, e),
        },
        r is Ok <==> word_currency(x.description@, 1) is Some
            && word_currency(x.description@, 3) is Some && !unsupported_trade(
            word_currency(x.description@, 1)->0,
            word_currency(x.description@, 3)->0,
        ),
{
    let words = split_words(x.description.as_str());
    proof {
        assert(words@.len() == whitespace_words(x.description@).len());
    }
    let from_cur = match word_currency_of(&words, 1) {
        Ok(c) => c,
        Err(e) => return Err(ConvertError::CurrencyParse(e)),
    };
    let to_cur = match word_currency_of(&words, 3) {
        Ok(c) => c,
        Err(e) => return Err(ConvertError::CurrencyParse(e)),
    };
    if from_cur != Currency::Btc && to_cur != Currency::Usd {
        let msg = joined("Trade from ", from_cur.code()).concat(" to ").concat(to_cur.code());
        return Err(ConvertError::Unsupported(msg));
    }
    Ok(KsRow::new(x.time, TxType::Consumption, None, btc(x), None, x.sub_description.clone()))
}

/// Converts one row by its description: exact descriptions first, then the prefixes
/// `Move ` (dropped) and `Exchange `; any other description is an error.
pub fn xapo_row_to_ks(x: &XapoRow) -> (r: Result<Option<KsRow>, ConvertError>)
    ensures
        row_outcome(*x, r),
{
    let d = x.description.as_str();
    proof {
        reveal_strlit("Lightning network transaction");
        reveal_strlit("Sent BTC");
        reveal_strlit("Daily USD interest");
        reveal_strlit("Daily BTC interest");
        reveal_strlit("Card Cashback Redemption");
    }
    if same_text(d, "Lightning network transaction") || same_text(d, "Sent BTC") {
        Ok(Some(xfer_out(x)))
    } else if same_text(d, "Daily USD interest") {
        proof {
            reveal_strlit("USD");
            reveal_strlit(" ");
            reveal_strlit("USD ");
            assert("USD"@ + " "@ + x.sub_description@ =~= "USD "@ + x.sub_description@);
        }
        Ok(Some(interest_tx(x, "USD")))
    } else if same_text(d, "Daily BTC interest") {
        proof {
            reveal_strlit("BTC");
            reveal_strlit(" ");
            reveal_strlit("BTC ");
            assert("BTC"@ + " "@ + x.sub_description@ =~= "BTC "@ + x.sub_description@);
        }
        Ok(Some(interest_tx(x, "BTC")))
    } else if same_text(d, "Card Cashback Redemption") {
        Ok(Some(cashback_tx(x)))
    } else if starts_with(d, "Move ") {
        Ok(None)
    } else if starts_with(d, "Exchange ") {
        match consumption_tx(x) {
            Ok(k) => Ok(Some(k)),
            Err(e) => Err(e),
        }
    } else {
        Err(ConvertError::UnknownTxType(x.description.clone()))
    }
}

/// `out` holds, in order, the rows that the rows of `xs` become; dropped rows leave no trace.
pub open spec fn converted_rows(xs: Seq<XapoRow>, out: Seq<KsRow>) -> bool
    decreases xs.len(),
{
    if xs.len() == 0 {
        out.len() == 0
    } else if skipped(xs.last().description@) {
        converted_rows(xs.drop_last(), out)
    } else {
        &&& out.len() > 0
        &&& converted_row(xs.last(), out.last())
        &&& converted_rows(xs.drop_last(), out.drop_last())
    }
}

/// Converts the rows of one account in order. The first row that cannot be converted stops
/// the whole batch with its error.
pub fn xapo_to_ks(xapo_rows: Vec<XapoRow>) -> (r: Result<Vec<KsRow>, ConvertError>)
    ensures
        r is Ok <==> forall|i: int| 0 <= i < xapo_rows@.len() ==> converts(#[trigger] xapo_rows@[i].description@),
        r is Ok ==> converted_rows(xapo_rows@, r->Ok_0@),
        r is Err ==> exists|i: int|
            0 <= i < xapo_rows@.len() && !converts(#[trigger] xapo_rows@[i].description@) && (forall|j: int|
                0 <= j < i ==> converts(#[trigger] xapo_rows@[j].description@)) && conversion_error(
                xapo_rows@[i],
                r->Err_0,
            ),
{
    let mut out: Vec<KsRow> = Vec::new();
    let mut i: usize = 0;
    while i < xapo_rows.len()
        invariant
            i <= xapo_rows@.len(),
            forall|j: int| 0 <= j < i ==> converts(#[trigger] xapo_rows@[j].description@),
            converted_rows(xapo_rows@.subrange(0, i as int), out@),
        decreases xapo_rows@.len() - i,
    {
        let ghost before = out@;
        let res = xapo_row_to_ks(&xapo_rows[i]);
        proof {
            assert(xapo_rows@.subrange(0, i + 1).drop_last() =~= xapo_rows@.subrange(0, i as int));
            assert(xapo_rows@.subrange(0, i + 1).last() == xapo_rows@[i as int]);
        }
        match res {
            Ok(Some(k)) => {
                out.push(k);
                proof {
                    assert(out@.drop_last() =~= before);
                }
            },
            Ok(None) => {},
            Err(e) => {
                return Err(e);
            },
        }
        i += 1;
    }
    proof {
        assert(xapo_rows@.subrange(0, i as int) =~= xapo_rows@);
    }
    Ok(out)
}

/// The exact descriptions begin neither with `Move ` nor with `Exchange `.
proof fn lemma_exact_not_prefixed(d: Seq<char>)
    requires
        is_exact(d),
    ensures
        !is_move(d),
        !is_exchange(d),
{
    reveal_strlit("Lightning network transaction");
    reveal_strlit("Sent BTC");
    reveal_strlit("Daily USD interest");
    reveal_strlit("Daily BTC interest");
    reveal_strlit("Card Cashback Redemption");
    reveal_strlit("Move ");
    reveal_strlit("Exchange ");
    if is_move(d) {
        assert(d.subrange(0, 5)[0] == d[0]);
        assert(d[0] == 'M');
    }
    if is_exchange(d) {
        assert(d.subrange(0, 9)[0] == d[0]);
        assert(d[0] == 'E');
    }
}

/// No description begins with both `Exchange ` and `Move `.
proof fn lemma_exchange_not_move(d: Seq<char>)
    requires
        is_exchange(d),
    ensures
        !is_move(d),
{
    reveal_strlit("Move ");
    reveal_strlit("Exchange ");
    assert(d.subrange(0, 9)[0] == d[0]);
    if is_move(d) {
        assert(d.subrange(0, 5)[0] == d[0]);
    }
}

/// A row whose description begins with `Move ` yields no row and no error.
pub proof fn lemma_move_is_dropped(x: XapoRow, r: Result<Option<KsRow>, ConvertError>)
    requires
        has_prefix(x.description@, "Move "@),
        row_outcome(x, r),
    ensures
        r == Ok::<Option<KsRow>, ConvertError>(None),
{
    if is_exact(x.description@) {
        lemma_exact_not_prefixed(x.description@);
    }
}

/// `Sent BTC` becomes a transfer out of the amount's magnitude in bitcoin, with a note that
/// begins with `CHECK!`.
pub proof fn lemma_sent_btc_is_transfer_out(x: XapoRow, r: Result<Option<KsRow>, ConvertError>)
    requires
        x.description@ == "Sent BTC"@,
        row_outcome(x, r),
    ensures
        r is Ok && r->Ok_0 is Some,
        r->Ok_0->0.tx_type == TxType::TransferOut,
        is_btc_of(r->Ok_0->0.outgoing, x.amount),
        r->Ok_0->0.incoming is None,
        has_prefix(r->Ok_0->0.note@, "CHECK!"@),
{
    reveal_strlit("CHECK!");
    reveal_strlit("CHECK! sub_descr=");
    let k = r->Ok_0->0;
    assert(k.note@.subrange(0, 6) =~= "CHECK!"@);
}

/// An exchange from bitcoin, with both currencies known, becomes a consumption of the
/// amount's magnitude in bitcoin, with the sub-description as note.
pub proof fn lemma_exchange_from_btc(x: XapoRow, r: Result<Option<KsRow>, ConvertError>)
    requires
        is_exchange(x.description@),
        word_currency(x.description@, 1) == Some(Currency::Btc),
        word_currency(x.description@, 3) is Some,
        row_outcome(x, r),
    ensures
        r is Ok && r->Ok_0 is Some,
        r->Ok_0->0.tx_type == TxType::Consumption,
        is_btc_of(r->Ok_0->0.outgoing, x.amount),
        r->Ok_0->0.note@ == x.sub_description@,
{
    if is_exact(x.description@) {
        lemma_exact_not_prefixed(x.description@);
    }
    lemma_exchange_not_move(x.description@);
}

/// An exchange from a currency other than bitcoin to one other than dollars fails as an
/// unsupported trade that names both currencies.
pub proof fn lemma_unsupported_trade(x: XapoRow, r: Result<Option<KsRow>, ConvertError>)
    requires
        is_exchange(x.description@),
        word_currency(x.description@, 1) is Some,
        word_currency(x.description@, 3) is Some,
        unsupported_trade(word_currency(x.description@, 1)->0, word_currency(x.description@, 3)->0),
        row_outcome(x, r),
    ensures
        r is Err,
        r->Err_0 matches ConvertError::Unsupported(u) && u@ == "Trade from "@ + code_of(
            word_currency(x.description@, 1)->0,
        ) + " to "@ + code_of(word_currency(x.description@, 3)->0),
{
    if is_exact(x.description@) {
        lemma_exact_not_prefixed(x.description@);
    }
    lemma_exchange_not_move(x.description@);
}

/// A description that matches no rule fails with an error that names it, and so does the
/// batch that holds it, unless an earlier row failed first.
pub proof fn lemma_unknown_description(x: XapoRow, r: Result<Option<KsRow>, ConvertError>)
    requires
        !is_exact(x.description@),
        !is_move(x.description@),
        !is_exchange(x.description@),
        row_outcome(x, r),
    ensures
        !converts(x.description@),
        r is Err,
        r->Err_0 matches ConvertError::UnknownTxType(u) && u@ == x.description@,
{
}

/// How many of the rows have a description that does not begin with `Move `.
pub open spec fn kept_count(xs: Seq<XapoRow>) -> nat
    decreases xs.len(),
{
    if xs.len() == 0 {
        0
    } else {
        kept_count(xs.drop_last()) + if is_move(xs.last().description@) {
            0nat
        } else {
            1nat
        }
    }
}

/// A converted batch holds one row for each row whose description does not begin with
/// `Move `, and none for the others.
pub proof fn lemma_batch_drops_only_moves(xs: Seq<XapoRow>, out: Seq<KsRow>)
    requires
        converted_rows(xs, out),
    ensures
        out.len() == kept_count(xs),
    decreases xs.len(),
{
    if xs.len() > 0 {
        let d = xs.last().description@;
        if is_exact(d) {
            lemma_exact_not_prefixed(d);
        }
        if skipped(d) {
            lemma_batch_drops_only_moves(xs.drop_last(), out);
        } else {
            lemma_batch_drops_only_moves(xs.drop_last(), out.drop_last());
        }
    }
}

} // verus!

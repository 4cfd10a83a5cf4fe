//! Rows of the tax tool's import format: the daily interest merge, the union of the two
//! accounts in time order, and the ten output columns.

use crate::money::{code_of, decimal_sum, decimal_text, fits_sum, scaled_value, Currency, Money};
use crate::time::{timestamp_text, DateTime};
use itertools::Itertools;
use vstd::prelude::*;

verus! {

/// The kind of a transaction in the tax tool's terms.
#[derive(Clone, Copy, Debug, PartialEq, Eq, Structural)]
pub enum TxType {
    Consumption,
    Income,
    /// Income from interest, kept apart so that daily interest can be merged.
    Interest,
    TransferOut,
}

/// The label the tax tool uses for a kind of transaction.
pub open spec fn label_of(t: TxType) -> Seq<char> {
    match t {
        TxType::Consumption => "Forbruk"@,
        TxType::Income | TxType::Interest => "Inntekt"@,
        TxType::TransferOut => "Overføring-Ut"@,
    }
}

impl TxType {
    pub fn label(&self) -> (r: &'static str)
        ensures
            r@ == label_of(*self),
    {
        match self {
            TxType::Consumption => "Forbruk",
            TxType::Income | TxType::Interest => "Inntekt",
            TxType::TransferOut => "Overføring-Ut",
        }
    }
}

/// One row of the tax tool's import format.
#[derive(Clone, Debug, PartialEq, Eq)]
pub struct KsRow {
    pub time: DateTime,
    pub tx_type: TxType,
    pub incoming: Option<Money>,
    pub outgoing: Option<Money>,
    pub fee: Option<Money>,
    pub note: String,
}

impl KsRow {
    pub fn new(
        time: DateTime,
        tx_type: TxType,
        incoming: Option<Money>,
        outgoing: Option<Money>,
        fee: Option<Money>,
        note: String,
    ) -> (r: KsRow)
        ensures
            r == (KsRow { time, tx_type, incoming, outgoing, fee, note }),
    {
        KsRow { time, tx_type, incoming, outgoing, fee, note }
    }
}

fn copy_row(r: &KsRow) -> (c: KsRow)
    ensures
        c == *r,
{
    KsRow {
        time: r.time,
        tx_type: r.tx_type,
        incoming: r.incoming,
        outgoing: r.outgoing,
        fee: r.fee,
        note: r.note.clone(),
    }
}

/// The interest rows of `s`, in order.
pub open spec fn interest_rows(s: Seq<KsRow>) -> Seq<KsRow>
    decreases s.len(),
{
    if s.len() == 0 {
        s
    } else if s.last().tx_type == TxType::Interest {
        interest_rows(s.drop_last()).push(s.last())
    } else {
        interest_rows(s.drop_last())
    }
}

/// The rows of `s` that are not interest, in order.
pub open spec fn other_rows(s: Seq<KsRow>) -> Seq<KsRow>
    decreases s.len(),
{
    if s.len() == 0 {
        s
    } else if s.last().tx_type != TxType::Interest {
        other_rows(s.drop_last()).push(s.last())
    } else {
        other_rows(s.drop_last())
    }
}

/// Every interest row has an incoming amount.
pub open spec fn interest_has_incoming(s: Seq<KsRow>) -> bool {
    forall|i: int| 0 <= i < s.len() && (#[trigger] s[i]).tx_type == TxType::Interest ==> s[i].incoming is Some
}

/// The incoming amount of a row, as mantissa and scale.
pub open spec fn amount_of(r: KsRow) -> (int, nat) {
    (r.incoming->0.amount.m(), r.incoming->0.amount.s())
}

/// The calendar day of a row, as year, month and day.
pub open spec fn day_of(r: KsRow) -> (u16, u8, u8) {
    (r.time.year, r.time.month, r.time.day)
}

/// The calendar days of the rows, in order.
pub open spec fn day_keys(s: Seq<KsRow>) -> Seq<(u16, u8, u8)> {
    s.map_values(|r: KsRow| day_of(r))
}

/// `g` groups the places of `keys` by key: each group non-empty, its places ascending and of
/// one key, no key in two groups, and every place in a group.
pub open spec fn grouping_of(keys: Seq<(u16, u8, u8)>, g: Seq<Seq<usize>>) -> bool {
    &&& forall|a: int| 0 <= a < g.len() ==> (#[trigger] g[a]).len() > 0
    &&& forall|a: int, b: int|
        0 <= a < g.len() && 0 <= b < g[a].len() ==> #[trigger] g[a][b] < keys.len() && keys[g[a][b] as int]
            == keys[g[a][0] as int]
    &&& forall|a: int, b: int, c: int|
        0 <= a < g.len() && 0 <= b < c < g[a].len() ==> #[trigger] g[a][b] < #[trigger] g[a][c]
    &&& forall|a: int, b: int|
        0 <= a < b < g.len() ==> keys[(#[trigger] g[a])[0] as int] != keys[(#[trigger] g[b])[0] as int]
    &&& forall|i: int| 0 <= i < keys.len() ==> #[trigger] in_some_group(g, i)
}

/// Place `i` is in one of the groups `g`.
pub open spec fn in_some_group(g: Seq<Seq<usize>>, i: int) -> bool {
    exists|a: int, b: int| 0 <= a < g.len() && 0 <= b < g[a].len() && #[trigger] g[a][b] == i
}

/// Relies on `itertools::Itertools::into_group_map_by`: each place goes to the group of its
/// key, in the order given; the groups come in the order of a hash map.
#[verifier::external_body]
fn group_by_day(keys: Vec<(u16, u8, u8)>) -> (r: Vec<Vec<usize>>)
    ensures
        grouping_of(keys@, r@.map_values(|v: Vec<usize>| v@)),
{
    keys.into_iter()
        .enumerate()
        .into_group_map_by(|p| p.1)
        .into_values()
        .map(|g| g.into_iter().map(|p| p.0).collect())
        .collect()
}

/// The incoming amounts of the rows of `s` at the places `g`, added up in order with
/// `Decimal::checked_add`; `None` once an addition overflows.
pub open spec fn group_total(s: Seq<KsRow>, g: Seq<usize>) -> Option<(int, nat)>
    decreases g.len(),
{
    if g.len() <= 1 {
        Some(amount_of(s[g[0] as int]))
    } else {
        let p = group_total(s, g.drop_last());
        if p is None {
            None
        } else {
            let (pm, ps) = p->0;
            let (bm, bs) = amount_of(s[g.last() as int]);
            decimal_sum(pm, ps, bm, bs)
        }
    }
}

/// Each running sum of the group, added to the next amount, fits a mantissa at the larger
/// of the two scales, so that every addition is exact.
pub open spec fn sums_fit(s: Seq<KsRow>, g: Seq<usize>) -> bool
    decreases g.len(),
{
    if g.len() <= 1 {
        true
    } else {
        let p = group_total(s, g.drop_last());
        let (pm, ps) = p->0;
        let (bm, bs) = amount_of(s[g.last() as int]);
        &&& sums_fit(s, g.drop_last())
        &&& p is Some
        &&& fits_sum(pm, ps, bm, bs)
    }
}

/// The exact sum of the incoming amounts at the places `g`, in units of `10^-28`.
pub open spec fn group_value(s: Seq<KsRow>, g: Seq<usize>) -> int
    decreases g.len(),
{
    if g.len() == 0 {
        0
    } else {
        let (m, sc) = amount_of(s[g.last() as int]);
        group_value(s, g.drop_last()) + scaled_value(m, sc)
    }
}

/// The group's total exists and is the exact sum of its amounts.
pub open spec fn exact_total(s: Seq<KsRow>, g: Seq<usize>) -> bool {
    let (m, sc) = group_total(s, g)->0;
    &&& group_total(s, g) is Some
    &&& scaled_value(m, sc) == group_value(s, g)
}

/// The group can be merged: one row, or a sum without overflow.
pub open spec fn mergeable(s: Seq<KsRow>, g: Seq<usize>) -> bool {
    g.len() == 1 || group_total(s, g) is Some
}

/// `r` stands for the rows of `s` at the places `g`: the row itself when it is alone on its
/// day, else the first row with the summed amount in bitcoin and a note saying so.
pub open spec fn merged_row(s: Seq<KsRow>, g: Seq<usize>, r: KsRow) -> bool {
    let f = s[g[0] as int];
    if g.len() == 1 {
        r == f
    } else {
        &&& group_total(s, g) is Some
        &&& r.time == f.time
        &&& r.tx_type == f.tx_type
        &&& r.outgoing == f.outgoing
        &&& r.fee == f.fee
        &&& r.incoming is Some
        &&& r.incoming->0.currency == Currency::Btc
        &&& (r.incoming->0.amount.m(), r.incoming->0.amount.s()) == group_total(s, g)->0
        &&& r.note@ == "Summed daily interest"@
    }
}

/// `out` is the merge of `rows` by the grouping `g` of its interest rows: a row per day of
/// interest, then the other rows unchanged.
pub open spec fn merge_layout(rows: Seq<KsRow>, g: Seq<Seq<usize>>, out: Seq<KsRow>) -> bool {
    let s = interest_rows(rows);
    let o = other_rows(rows);
    &&& out.len() == g.len() + o.len()
    &&& forall|k: int| 0 <= k < g.len() ==> merged_row(s, g[k], #[trigger] out[k])
    &&& out.subrange(g.len() as int, out.len() as int) == o
}

/// What merging `rows` gives for a grouping `g` of its interest rows by day: `None` exactly
/// where some group cannot be merged, else the merge.
pub open spec fn merge_outcome(rows: Seq<KsRow>, g: Seq<Seq<usize>>, r: Option<Seq<KsRow>>) -> bool {
    let s = interest_rows(rows);
    &&& grouping_of(day_keys(s), g)
    &&& r is Some <==> forall|k: int| 0 <= k < g.len() ==> #[trigger] mergeable(s, g[k])
    &&& r is Some ==> merge_layout(rows, g, r->0)
    &&& (forall|k: int| 0 <= k < g.len() ==> #[trigger] sums_fit(s, g[k])) ==> r is Some
    &&& r is Some ==> forall|k: int| 0 <= k < g.len() && #[trigger] sums_fit(s, g[k]) ==> exact_total(s, g[k])
}

/// The rows of an optional vector.
pub open spec fn rows_of(r: Option<Vec<KsRow>>) -> Option<Seq<KsRow>> {
    match r {
        Some(v) => Some(v@),
        None => None,
    }
}

/// Merges interest paid on the same day into one row, since interest in two currencies is
/// paid in bitcoin as two rows a day. `None` where a daily sum overflows.
pub fn merge_interest(rows: Vec<KsRow>) -> (r: Option<Vec<KsRow>>)
    requires
        interest_has_incoming(rows@),
    ensures
        exists|g: Seq<Seq<usize>>|
            #[trigger] merge_outcome(rows@, g, rows_of(r)),
{
    let mut interest: Vec<KsRow> = Vec::new();
    let mut other: Vec<KsRow> = Vec::new();
    let mut keys: Vec<(u16, u8, u8)> = Vec::new();
    let mut i: usize = 0;
    while i < rows.len()
        invariant
            i <= rows@.len(),
            interest_has_incoming(rows@),
            interest@ == interest_rows(rows@.subrange(0, i as int)),
            other@ == other_rows(rows@.subrange(0, i as int)),
            keys@ == day_keys(interest@),
            forall|k: int| 0 <= k < interest@.len() ==> (#[trigger] interest@[k]).incoming is Some,
        decreases rows@.len() - i,
    {
        proof {
            assert(rows@.subrange(0, i + 1).drop_last() =~= rows@.subrange(0, i as int));
            assert(rows@.subrange(0, i + 1).last() == rows@[i as int]);
        }
        let row = copy_row(&rows[i]);
        if row.tx_type == TxType::Interest {
            keys.push((row.time.year, row.time.month, row.time.day));
            interest.push(row);
            proof {
                assert(keys@ =~= day_keys(interest@));
            }
        } else {
            other.push(row);
        }
        i += 1;
    }
    proof {
        assert(rows@.subrange(0, i as int) =~= rows@);
    }
    let ghost s = interest@;
    let groups = group_by_day(keys);
    let ghost g = groups@.map_values(|v: Vec<usize>| v@);
    let mut out: Vec<KsRow> = Vec::new();
    let mut k: usize = 0;
    while k < groups.len()
        invariant
            s == interest@,
            s == interest_rows(rows@),
            other@ == other_rows(rows@),
            g == groups@.map_values(|v: Vec<usize>| v@),
            grouping_of(day_keys(s), g),
            forall|j: int| 0 <= j < s.len() ==> (#[trigger] s[j]).incoming is Some,
            k <= groups@.len(),
            out@.len() == k,
            forall|j: int| 0 <= j < k ==> merged_row(s, g[j], #[trigger] out@[j]),
            forall|j: int| 0 <= j < k ==> #[trigger] mergeable(s, g[j]),
            forall|j: int| 0 <= j < k && #[trigger] sums_fit(s, g[j]) ==> exact_total(s, g[j]),
        decreases groups@.len() - k,
    {
        let grp = &groups[k];
        assert(grp@ == g[k as int]);
        assert(grp@.len() > 0);
        assert(grp@[0] < s.len());
        let f = &interest[grp[0]];
        let ghost before = out@;
        if grp.len() == 1 {
            out.push(copy_row(f));
        } else {
            let mut acc = match f.incoming {
                Some(m) => m.amount,
                None => {
                    return None;
                },
            };
            let mut ok = true;
            let mut b: usize = 1;
            proof {
                assert(grp@.subrange(0, 1).len() == 1);
                assert(grp@.subrange(0, 1)[0] == grp@[0]);
                let h = grp@.subrange(0, 1);
                assert(h.drop_last().len() == 0);
                assert(group_value(s, h.drop_last()) == 0);
                assert(h.last() == grp@[0]);
                assert(amount_of(s[grp@[0] as int]) == (acc.m(), acc.s()));
                assert(group_value(s, h) == acc.value());
            }
            while b < grp.len()
                invariant
                    1 <= b <= grp@.len(),
                    grp@ == g[k as int],
                    s == interest@,
                    grouping_of(day_keys(s), g),
                    0 <= k < g.len(),
                    forall|j: int| 0 <= j < s.len() ==> (#[trigger] s[j]).incoming is Some,
                    ok ==> group_total(s, grp@.subrange(0, b as int)) == Some((acc.m(), acc.s())),
                    !ok ==> group_total(s, grp@.subrange(0, b as int)) is None,
                    sums_fit(s, grp@.subrange(0, b as int)) ==> ok && acc.value() == group_value(
                        s,
                        grp@.subrange(0, b as int),
                    ),
                decreases grp@.len() - b,
            {
                let idx = grp[b];
                assert(idx < s.len());
                proof {
                    assert(grp@.subrange(0, b + 1).drop_last() =~= grp@.subrange(0, b as int));
                    assert(grp@.subrange(0, b + 1).last() == idx);
                }
                if ok {
                    let next = match interest[idx].incoming {
                        Some(m) => m.amount,
                        None => {
                            return None;
                        },
                    };
                    match acc.checked_add(&next) {
                        Some(x) => {
                            acc = x;
                        },
                        None => {
                            ok = false;
                        },
                    }
                }
                b += 1;
            }
            proof {
                assert(grp@.subrange(0, b as int) =~= grp@);
            }
            if !ok {
                proof {
                    assert(!mergeable(s, g[k as int]));
                    assert(!sums_fit(s, g[k as int]));
                    assert(merge_outcome(rows@, g, rows_of(None)));
                }
                return None;
            }
            out.push(
                KsRow {
                    time: f.time,
                    tx_type: f.tx_type,
                    incoming: Some(Money::new(acc, Currency::Btc)),
                    outgoing: f.outgoing,
                    fee: f.fee,
                    note: "Summed daily interest".to_owned(),
                },
            );
        }
        proof {
            assert(out@.drop_last() =~= before);
            assert(mergeable(s, g[k as int]));
            if grp@.len() == 1 {
                assert(grp@.drop_last().len() == 0);
                assert(group_value(s, grp@.drop_last()) == 0);
                assert(grp@.last() == grp@[0]);
                assert(group_total(s, grp@) == Some(amount_of(s[grp@[0] as int])));
                assert(exact_total(s, g[k as int]));
            }
        }
        k += 1;
    }
    let ghost merged = out@;
    out.append(&mut other);
    proof {
        assert(out@.subrange(g.len() as int, out@.len() as int) =~= other_rows(rows@));
        assert(forall|j: int| 0 <= j < g.len() ==> out@[j] == merged[j]);
        assert(merge_layout(rows@, g, out@));
        assert(merge_outcome(rows@, g, Some(out@)));
    }
    Some(out)
}

/// The rows are in chronological order.
pub open spec fn in_time_order(s: Seq<KsRow>) -> bool {
    forall|i: int, j: int| 0 <= i < j < s.len() ==> (#[trigger] s[i]).time.key_spec() <= (#[trigger] s[j]).time.key_spec()
}

/// Relies on `slice::sort_by_key`: the same rows, ascending in the key.
#[verifier::external_body]
fn sort_by_time(rows: &mut Vec<KsRow>)
    ensures
        final(rows)@.to_multiset() == old(rows)@.to_multiset(),
        in_time_order(final(rows)@),
{
    rows.sort_by_key(|r| r.time.key())
}

/// Unifies the two accounts: daily interest of the savings account merged, then every row of
/// both in chronological order. `None` where a daily interest sum overflows.
pub fn unify(btc_account: Vec<KsRow>, btc_savings: Vec<KsRow>) -> (r: Option<Vec<KsRow>>)
    requires
        interest_has_incoming(btc_savings@),
    ensures
        exists|g: Seq<Seq<usize>>, m: Option<Seq<KsRow>>|
            {
                &&& #[trigger] merge_outcome(btc_savings@, g, m)
                &&& r is Some <==> m is Some
                &&& r is Some ==> in_time_order(r->0@) && r->0@.to_multiset() == (m->0
                    + btc_account@).to_multiset()
            },
{
    let mut btc_account = btc_account;
    let ghost savings = btc_savings@;
    let merged = merge_interest(btc_savings);
    let ghost g = choose|g: Seq<Seq<usize>>|
        merge_outcome(savings, g, rows_of(merged));
    let mut unified = match merged {
        Some(m) => m,
        None => {
            assert(merge_outcome(savings, g, None));
            return None;
        },
    };
    let ghost m = unified@;
    let ghost a = btc_account@;
    unified.append(&mut btc_account);
    assert(unified@ == m + a);
    sort_by_time(&mut unified);
    assert(merge_outcome(savings, g, Some(m)));
    Some(unified)
}

/// The two columns of an amount: its plain notation and its currency code, or two empty texts.
pub open spec fn money_columns(m: Option<Money>) -> (Seq<char>, Seq<char>) {
    match m {
        Some(x) => (decimal_text(x.amount.m(), x.amount.s()), code_of(x.currency)),
        None => (Seq::empty(), Seq::empty()),
    }
}

/// The note without any `|`, which the tax tool does not accept there.
pub open spec fn clean_note(note: Seq<char>) -> Seq<char> {
    note.filter(|c: char| c != '|')
}

/// The ten columns that a row is written as.
pub open spec fn record_of(row: KsRow) -> Seq<Seq<char>> {
    seq![
        timestamp_text(row.time),
        label_of(row.tx_type),
        money_columns(row.incoming).0,
        money_columns(row.incoming).1,
        money_columns(row.outgoing).0,
        money_columns(row.outgoing).1,
        money_columns(row.fee).0,
        money_columns(row.fee).1,
        "Xapo"@,
        clean_note(row.note@),
    ]
}

/// Relies on `str::replace` with an empty replacement: each `|` removed, the rest kept in order.
#[verifier::external_body]
fn remove_bars(s: &str) -> (r: String)
    ensures
        r@ == clean_note(s@),
{
    s.replace('|', "")
}

fn money_cols(money: Option<Money>) -> (r: (String, String))
    ensures
        r.0@ == money_columns(money).0,
        r.1@ == money_columns(money).1,
{
    match money {
        Some(m) => (m.amount.to_text(), m.currency.code().to_owned()),
        None => (String::new(), String::new()),
    }
}

/// The columns that a row is written as.
pub fn row_to_record(row: &KsRow) -> (r: Vec<String>)
    ensures
        r@.map_values(|c: String| c@) == record_of(*row),
{
    let mut cols: Vec<String> = Vec::new();
    cols.push(row.time.to_text());
    cols.push(row.tx_type.label().to_owned());
    let (incoming_amount, incoming_currency) = money_cols(row.incoming);
    let (outgoing_amount, outgoing_currency) = money_cols(row.outgoing);
    let (fee_amount, fee_currency) = money_cols(row.fee);
    cols.push(incoming_amount);
    cols.push(incoming_currency);
    cols.push(outgoing_amount);
    cols.push(outgoing_currency);
    cols.push(fee_amount);
    cols.push(fee_currency);
    cols.push("Xapo".to_owned());
    cols.push(remove_bars(row.note.as_str()));
    assert(cols@.map_values(|c: String| c@) =~= record_of(*row));
    cols
}

/// The header line of the tax tool's import format.
pub fn csv_header() -> (r: Vec<&'static str>)
    ensures
        r@.len() == 10,
        r@[0]@ == "Tidspunkt"@ && r@[1]@ == "Type"@ && r@[2]@ == "Inn"@ && r@[3]@ == "Inn-Valuta"@,
        r@[4]@ == "Ut"@ && r@[5]@ == "Ut-Valuta"@ && r@[6]@ == "Gebyr"@ && r@[7]@ == "Gebyr-Valuta"@,
        r@[8]@ == "Marked"@ && r@[9]@ == "Notat"@,
{
    vec![
        "Tidspunkt",
        "Type",
        "Inn",
        "Inn-Valuta",
        "Ut",
        "Ut-Valuta",
        "Gebyr",
        "Gebyr-Valuta",
        "Marked",
        "Notat",
    ]
}

/// The calendar day of each interest row is its key in the grouping.
proof fn lemma_day_key(s: Seq<KsRow>, x: int)
    requires
        0 <= x < s.len(),
    ensures
        day_keys(s)[x] == day_of(s[x]),
{
}

/// An interest row alone on its day comes out of the merge exactly as it went in.
pub proof fn lemma_lone_interest_row_kept(rows: Seq<KsRow>, g: Seq<Seq<usize>>, out: Seq<KsRow>, i: int)
    requires
        grouping_of(day_keys(interest_rows(rows)), g),
        merge_layout(rows, g, out),
        0 <= i < interest_rows(rows).len(),
        forall|j: int|
            0 <= j < interest_rows(rows).len() && j != i ==> day_of(#[trigger] interest_rows(rows)[j])
                != day_of(interest_rows(rows)[i]),
    ensures
        exists|k: int| 0 <= k < g.len() && out[k] == interest_rows(rows)[i],
{
    let s = interest_rows(rows);
    let keys = day_keys(s);
    assert(in_some_group(g, i));
    let (a, b) = choose|a: int, b: int| 0 <= a < g.len() && 0 <= b < g[a].len() && #[trigger] g[a][b] == i;
    if g[a].len() > 1 {
        let b2: int = if b == 0 { 1 } else { 0 };
        let x = g[a][b2] as int;
        if b2 < b {
            assert(g[a][b2] < g[a][b]);
        } else {
            assert(g[a][b] < g[a][b2]);
        }
        assert(keys[x] == keys[g[a][0] as int] && keys[i] == keys[g[a][0] as int]);
        lemma_day_key(s, x);
        lemma_day_key(s, i);
        assert(day_of(s[x]) != day_of(s[i]));
    }
    assert(b == 0);
    assert(merged_row(s, g[a], out[a]));
    assert(out[a] == s[i]);
}

/// Two or more interest rows on one day become a single row for that day: time, kind,
/// outgoing amount and fee of one of them, their total in bitcoin, and a note saying so. Where
/// every running sum fits, that total is the exact sum of their amounts.
pub proof fn lemma_shared_day_summed(rows: Seq<KsRow>, g: Seq<Seq<usize>>, out: Seq<KsRow>, i: int, j: int)
    requires
        merge_outcome(rows, g, Some(out)),
        0 <= i < j < interest_rows(rows).len(),
        day_of(interest_rows(rows)[i]) == day_of(interest_rows(rows)[j]),
    ensures
        exists|k: int|
            {
                &&& 0 <= k < g.len()
                &&& g[k].contains(i as usize) && g[k].contains(j as usize)
                &&& day_of(#[trigger] out[k]) == day_of(interest_rows(rows)[i])
                &&& out[k].note@ == "Summed daily interest"@
                &&& out[k].incoming is Some
                &&& out[k].incoming->0.currency == Currency::Btc
                &&& Some((out[k].incoming->0.amount.m(), out[k].incoming->0.amount.s())) == group_total(
                    interest_rows(rows),
                    g[k],
                )
                &&& sums_fit(interest_rows(rows), g[k]) ==> out[k].incoming->0.amount.value()
                    == group_value(interest_rows(rows), g[k])
            },
{
    let s = interest_rows(rows);
    let keys = day_keys(s);
    assert(in_some_group(g, i));
    assert(in_some_group(g, j));
    let (a, b) = choose|a: int, b: int| 0 <= a < g.len() && 0 <= b < g[a].len() && #[trigger] g[a][b] == i;
    let (a2, b2) = choose|a: int, b: int| 0 <= a < g.len() && 0 <= b < g[a].len() && #[trigger] g[a][b] == j;
    lemma_day_key(s, i);
    lemma_day_key(s, j);
    assert(keys[g[a][b] as int] == keys[g[a][0] as int]);
    assert(keys[g[a2][b2] as int] == keys[g[a2][0] as int]);
    if a != a2 {
        if a < a2 {
            assert(keys[g[a][0] as int] != keys[g[a2][0] as int]);
        } else {
            assert(keys[g[a2][0] as int] != keys[g[a][0] as int]);
        }
    }
    assert(a == a2);
    assert(b != b2);
    assert(g[a].len() != 1);
    assert(merged_row(s, g[a], out[a]));
    lemma_day_key(s, g[a][0] as int);
    assert(g[a].contains(i as usize) && g[a].contains(j as usize));
    assert(0 <= a < g.len() && g[a].contains(i as usize) && g[a].contains(j as usize) && day_of(out[a]) == day_of(s[i]));
}

/// Two interest rows on one day merge into one row: the first row's time and kind, their
/// sum in bitcoin, and a note saying so; the other rows follow unchanged.
pub proof fn lemma_two_interest_rows_summed(rows: Seq<KsRow>, g: Seq<Seq<usize>>, out: Seq<KsRow>)
    requires
        interest_rows(rows).len() == 2,
        interest_rows(rows)[0].time.same_date(interest_rows(rows)[1].time),
        grouping_of(day_keys(interest_rows(rows)), g),
        merge_layout(rows, g, out),
    ensures
        out.len() == other_rows(rows).len() + 1,
        out[0].time == interest_rows(rows)[0].time,
        out[0].tx_type == interest_rows(rows)[0].tx_type,
        out[0].incoming is Some,
        out[0].incoming->0.currency == Currency::Btc,
        Some((out[0].incoming->0.amount.m(), out[0].incoming->0.amount.s())) == decimal_sum(
            amount_of(interest_rows(rows)[0]).0,
            amount_of(interest_rows(rows)[0]).1,
            amount_of(interest_rows(rows)[1]).0,
            amount_of(interest_rows(rows)[1]).1,
        ),
        out[0].note@ == "Summed daily interest"@,
        out.subrange(1, out.len() as int) == other_rows(rows),
{
    let s = interest_rows(rows);
    let keys = day_keys(s);
    assert(keys[0] == keys[1]);
    assert(in_some_group(g, 0) && in_some_group(g, 1));
    let (a0, b0) = choose|a: int, b: int| 0 <= a < g.len() && 0 <= b < g[a].len() && #[trigger] g[a][b] == 0;
    let (a1, b1) = choose|a: int, b: int| 0 <= a < g.len() && 0 <= b < g[a].len() && #[trigger] g[a][b] == 1;
    if g.len() >= 2 {
        assert(g[0][0] < keys.len() && g[1][0] < keys.len());
        assert(keys[g[0][0] as int] != keys[g[1][0] as int]);
    }
    assert(g.len() == 1);
    let h = g[0];
    if h.len() >= 3 {
        assert(h[0] < h[1] && h[1] < h[2] && h[2] < keys.len());
    }
    assert(h.len() <= 2);
    if h.len() == 1 {
        assert(h[0] == 0 && h[0] == 1);
    }
    assert(h.len() == 2);
    assert(h[0] < h[1]);
    assert(h[1] < 2);
    assert(h[0] == 0 && h[1] == 1);
    assert(h.drop_last().len() == 1);
    assert(h.drop_last()[0] == 0);
    assert(group_total(s, h.drop_last()) == Some(amount_of(s[0])));
    assert(merged_row(s, h, out[0]));
}

proof fn lemma_interest_rows_are_interest(rows: Seq<KsRow>)
    ensures
        forall|x: int|
            0 <= x < interest_rows(rows).len() ==> (#[trigger] interest_rows(rows)[x]).tx_type
                == TxType::Interest,
    decreases rows.len(),
{
    if rows.len() > 0 {
        lemma_interest_rows_are_interest(rows.drop_last());
    }
}

/// After a merge, the rows standing for the days of interest are interest rows on pairwise
/// different days, so merging again finds nothing to combine.
pub proof fn lemma_merged_days_distinct(rows: Seq<KsRow>, g: Seq<Seq<usize>>, out: Seq<KsRow>)
    requires
        grouping_of(day_keys(interest_rows(rows)), g),
        merge_layout(rows, g, out),
    ensures
        forall|k: int| 0 <= k < g.len() ==> (#[trigger] out[k]).tx_type == TxType::Interest,
        forall|k1: int, k2: int|
            0 <= k1 < k2 < g.len() ==> day_of(#[trigger] out[k1]) != day_of(#[trigger] out[k2]),
{
    let s = interest_rows(rows);
    let keys = day_keys(s);
    lemma_interest_rows_are_interest(rows);
    assert forall|k: int| 0 <= k < g.len() implies (#[trigger] out[k]).tx_type == TxType::Interest
        && day_of(out[k]) == keys[g[k][0] as int] by {
        assert(g[k].len() > 0);
        assert(g[k][0] < keys.len());
        assert(merged_row(s, g[k], out[k]));
        lemma_day_key(s, g[k][0] as int);
    }
    assert forall|k1: int, k2: int| 0 <= k1 < k2 < g.len() implies day_of(#[trigger] out[k1])
        != day_of(#[trigger] out[k2]) by {
        assert(keys[g[k1][0] as int] != keys[g[k2][0] as int]);
    }
}

} // verus!

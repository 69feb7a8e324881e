//! Order records and the insertion-ordered order book that holds them.
use crate::decimal::Dec;
use crate::order::{Kind, Order, OrderMessage, Status};
use indexmap::IndexMap;
use vstd::prelude::*;

verus! {

/// An order inside the exchange: the submitted order with its fill state.
#[derive(Debug)]
pub struct OrderEx {
    pub order: Order,
    pub id: String,
    pub kind: Kind,
    pub avg_price: Dec,
    pub cumulative_quantity: Dec,
    pub create_time: u64,
    pub update_time: u64,
    pub status: Status,
    /// Margin taken from the cash balance while the order waits.
    pub freeze_margin: Dec,
}

impl OrderEx {
    /// The order as reported to a strategy.
    pub fn to_order_message(&self) -> (r: OrderMessage)
        ensures
            r == message(*self),
    {
        OrderMessage {
            symbol: self.order.symbol.clone(),
            side: self.order.side,
            trigger_price: self.order.trigger_price,
            price: self.order.price,
            quantity: self.order.quantity,
            reduce_only: self.order.reduce_only,
            id: self.id.clone(),
            kind: self.kind,
            avg_price: self.avg_price,
            cumulative_quantity: self.cumulative_quantity,
            create_time: self.create_time,
            update_time: self.update_time,
            status: self.status,
        }
    }

    /// A field-by-field copy.
    pub fn duplicate(&self) -> (r: OrderEx)
        ensures
            r == *self,
    {
        OrderEx {
            order: self.order.duplicate(),
            id: self.id.clone(),
            kind: self.kind,
            avg_price: self.avg_price,
            cumulative_quantity: self.cumulative_quantity,
            create_time: self.create_time,
            update_time: self.update_time,
            status: self.status,
            freeze_margin: self.freeze_margin,
        }
    }
}

/// The report of the order `o`.
pub open spec fn message(o: OrderEx) -> OrderMessage {
    OrderMessage {
        symbol: o.order.symbol,
        side: o.order.side,
        trigger_price: o.order.trigger_price,
        price: o.order.price,
        quantity: o.order.quantity,
        reduce_only: o.order.reduce_only,
        id: o.id,
        kind: o.kind,
        avg_price: o.avg_price,
        cumulative_quantity: o.cumulative_quantity,
        create_time: o.create_time,
        update_time: o.update_time,
        status: o.status,
    }
}

#[verifier::external_type_specification]
#[verifier::external_body]
#[verifier::reject_recursive_types(K)]
#[verifier::reject_recursive_types(V)]
#[verifier::reject_recursive_types(S)]
pub struct ExIndexMap<K, V, S>(IndexMap<K, V, S>);

/// The entries of an order book, in insertion order, each with its key.
pub uninterp spec fn book_entries(m: IndexMap<String, OrderEx>) -> Seq<(Seq<char>, OrderEx)>;

/// Position of key `k` among the entries, or -1.
pub open spec fn key_position(e: Seq<(Seq<char>, OrderEx)>, k: Seq<char>) -> int {
    if exists|i: int| 0 <= i < e.len() && #[trigger] e[i].0 == k {
        choose|i: int| 0 <= i < e.len() && #[trigger] e[i].0 == k
    } else {
        -1
    }
}

/// No key occurs twice.
pub open spec fn unique_keys(e: Seq<(Seq<char>, OrderEx)>) -> bool {
    forall|i: int, j: int| 0 <= i < e.len() && 0 <= j < e.len() && i != j ==> e[i].0 != e[j].0
}

pub proof fn lemma_key_position(e: Seq<(Seq<char>, OrderEx)>, k: Seq<char>, i: int)
    requires
        unique_keys(e),
        0 <= i < e.len(),
        e[i].0 == k,
    ensures
        key_position(e, k) == i,
{
}

pub proof fn lemma_key_position_absent(e: Seq<(Seq<char>, OrderEx)>, k: Seq<char>)
    requires
        forall|i: int| 0 <= i < e.len() ==> e[i].0 != k,
    ensures
        key_position(e, k) == -1,
{
}

/// The entries after inserting `v` under `k`: an existing key keeps its place and
/// gets the new value; a new key goes last.
pub open spec fn insert_effect(e: Seq<(Seq<char>, OrderEx)>, k: Seq<char>, v: OrderEx) -> Seq<(Seq<char>, OrderEx)> {
    let p = key_position(e, k);
    if p >= 0 {
        e.update(p, (k, v))
    } else {
        e.push((k, v))
    }
}

/// The entries after removing key `k` (unchanged when absent), keeping the order.
pub open spec fn remove_effect(e: Seq<(Seq<char>, OrderEx)>, k: Seq<char>) -> Seq<(Seq<char>, OrderEx)> {
    let p = key_position(e, k);
    if p >= 0 {
        e.remove(p)
    } else {
        e
    }
}

pub proof fn lemma_key_position_found(e: Seq<(Seq<char>, OrderEx)>, k: Seq<char>)
    ensures
        key_position(e, k) >= 0 ==> 0 <= key_position(e, k) < e.len() && e[key_position(e, k)].0 == k,
        key_position(e, k) < 0 ==> key_position(e, k) == -1 && forall|i: int| 0 <= i < e.len() ==> #[trigger] e[i].0 != k,
{
}

pub proof fn lemma_insert_unique(e: Seq<(Seq<char>, OrderEx)>, k: Seq<char>, v: OrderEx)
    requires
        unique_keys(e),
    ensures
        unique_keys(insert_effect(e, k, v)),
        insert_effect(e, k, v).len() == e.len() || insert_effect(e, k, v).len() == e.len() + 1,
{
    lemma_key_position_found(e, k);
    let r = insert_effect(e, k, v);
    assert forall|i: int, j: int| 0 <= i < r.len() && 0 <= j < r.len() && i != j implies r[i].0 != r[j].0 by {
        if key_position(e, k) >= 0 {
            let p = key_position(e, k);
            if i != p && j != p {
                assert(r[i] == e[i] && r[j] == e[j]);
            }
        } else {
            if i < e.len() && j < e.len() {
                assert(r[i] == e[i] && r[j] == e[j]);
            }
        }
    }
}

pub proof fn lemma_remove_unique(e: Seq<(Seq<char>, OrderEx)>, k: Seq<char>)
    requires
        unique_keys(e),
    ensures
        unique_keys(remove_effect(e, k)),
{
    lemma_key_position_found(e, k);
    let r = remove_effect(e, k);
    if key_position(e, k) >= 0 {
        let p = key_position(e, k);
        assert forall|i: int, j: int| 0 <= i < r.len() && 0 <= j < r.len() && i != j implies r[i].0 != r[j].0 by {
            let ii = if i < p { i } else { i + 1 };
            let jj = if j < p { j } else { j + 1 };
            assert(r[i] == e[ii] && r[j] == e[jj]);
        }
    }
}

/// The value stored under key `k`, if any.
pub open spec fn lookup(e: Seq<(Seq<char>, OrderEx)>, k: Seq<char>) -> Option<OrderEx> {
    let p = key_position(e, k);
    if p >= 0 {
        Some(e[p].1)
    } else {
        None
    }
}

pub proof fn lemma_lookup_insert(e: Seq<(Seq<char>, OrderEx)>, x: Seq<char>, v: OrderEx, k: Seq<char>)
    requires
        unique_keys(e),
    ensures
        lookup(insert_effect(e, x, v), k) == (if k == x { Some(v) } else { lookup(e, k) }),
{
    lemma_key_position_found(e, x);
    lemma_key_position_found(e, k);
    lemma_insert_unique(e, x, v);
    let r = insert_effect(e, x, v);
    lemma_key_position_found(r, k);
    let px = key_position(e, x);
    if k == x {
        let q = if px >= 0 { px } else { e.len() as int };
        assert(r[q].0 == k);
        lemma_key_position(r, k, q);
    } else if key_position(e, k) >= 0 {
        let pk = key_position(e, k);
        assert(r[pk] == e[pk]);
        lemma_key_position(r, k, pk);
    } else {
        assert forall|i: int| 0 <= i < r.len() implies r[i].0 != k by {
            if px >= 0 {
                if i != px {
                    assert(r[i] == e[i]);
                }
            } else if i < e.len() {
                assert(r[i] == e[i]);
            }
        }
        lemma_key_position_absent(r, k);
    }
}

pub proof fn lemma_lookup_remove(e: Seq<(Seq<char>, OrderEx)>, x: Seq<char>, k: Seq<char>)
    requires
        unique_keys(e),
        k != x,
    ensures
        lookup(remove_effect(e, x), k) == lookup(e, k),
{
    lemma_key_position_found(e, x);
    lemma_key_position_found(e, k);
    lemma_remove_unique(e, x);
    let r = remove_effect(e, x);
    let px = key_position(e, x);
    if px >= 0 {
        if key_position(e, k) >= 0 {
            let pk = key_position(e, k);
            let q = if pk < px { pk } else { pk - 1 };
            assert(r[q] == e[pk]);
            lemma_key_position(r, k, q);
        } else {
            assert forall|i: int| 0 <= i < r.len() implies r[i].0 != k by {
                let ii = if i < px { i } else { i + 1 };
                assert(r[i] == e[ii]);
            }
            lemma_key_position_absent(r, k);
        }
    }
}

pub proof fn lemma_lookup_removed(e: Seq<(Seq<char>, OrderEx)>, x: Seq<char>)
    requires
        unique_keys(e),
    ensures
        lookup(remove_effect(e, x), x) is None,
{
    lemma_key_position_found(e, x);
    let r = remove_effect(e, x);
    let px = key_position(e, x);
    if px >= 0 {
        assert forall|i: int| 0 <= i < r.len() implies r[i].0 != x by {
            let ii = if i < px { i } else { i + 1 };
            assert(r[i] == e[ii]);
        }
        lemma_key_position_absent(r, x);
    }
}

/// No entry of `e` is an order for the symbol `s`.
pub open spec fn orders_free_of(e: Seq<(Seq<char>, OrderEx)>, s: Seq<char>) -> bool {
    forall|k: Seq<char>| #[trigger] lookup(e, k) matches Some(x) ==> x.order.symbol@ != s
}

pub proof fn lemma_free_remove(e: Seq<(Seq<char>, OrderEx)>, x: Seq<char>, s: Seq<char>)
    requires
        unique_keys(e),
        orders_free_of(e, s),
    ensures
        orders_free_of(remove_effect(e, x), s),
{
    assert forall|k: Seq<char>| #[trigger] lookup(remove_effect(e, x), k) is Some implies lookup(remove_effect(e, x),
        k).unwrap().order.symbol@ != s by {
        if k == x {
            lemma_lookup_removed(e, x);
        } else {
            lemma_lookup_remove(e, x, k);
            assert(lookup(e, k) is Some);
        }
    }
}

pub proof fn lemma_free_insert(e: Seq<(Seq<char>, OrderEx)>, x: Seq<char>, v: OrderEx, s: Seq<char>)
    requires
        unique_keys(e),
        orders_free_of(e, s),
        v.order.symbol@ != s,
    ensures
        orders_free_of(insert_effect(e, x, v), s),
{
    assert forall|k: Seq<char>| #[trigger] lookup(insert_effect(e, x, v), k) is Some implies lookup(insert_effect(e, x, v),
        k).unwrap().order.symbol@ != s by {
        lemma_lookup_insert(e, x, v, k);
        if k != x {
            assert(lookup(e, k) is Some);
        }
    }
}

pub proof fn lemma_free_update(e: Seq<(Seq<char>, OrderEx)>, p: int, v: OrderEx, s: Seq<char>)
    requires
        unique_keys(e),
        0 <= p < e.len(),
        orders_free_of(e, s),
        v.order.symbol@ == e[p].1.order.symbol@,
    ensures
        orders_free_of(e.update(p, (e[p].0, v)), s),
{
    lemma_key_position(e, e[p].0, p);
    assert(lookup(e, e[p].0) == Some(e[p].1));
    assert forall|k: Seq<char>| #[trigger] lookup(e.update(p, (e[p].0, v)), k) is Some implies lookup(e.update(p, (e[p].0,
        v)), k).unwrap().order.symbol@ != s by {
        lemma_lookup_update(e, p, v, k);
        if k != e[p].0 {
            assert(lookup(e, k) is Some);
        }
    }
}

pub proof fn lemma_lookup_update(e: Seq<(Seq<char>, OrderEx)>, p: int, v: OrderEx, k: Seq<char>)
    requires
        unique_keys(e),
        0 <= p < e.len(),
    ensures
        lookup(e.update(p, (e[p].0, v)), k) == (if k == e[p].0 { Some(v) } else { lookup(e, k) }),
{
    lemma_key_position_found(e, k);
    let r = e.update(p, (e[p].0, v));
    assert(unique_keys(r)) by {
        assert forall|i: int, j: int| 0 <= i < r.len() && 0 <= j < r.len() && i != j implies r[i].0 != r[j].0 by {
            assert(r[i].0 == e[i].0 && r[j].0 == e[j].0);
        }
    }
    if k == e[p].0 {
        lemma_key_position(r, k, p);
    } else if key_position(e, k) >= 0 {
        let pk = key_position(e, k);
        lemma_key_position(r, k, pk);
    } else {
        assert forall|i: int| 0 <= i < r.len() implies r[i].0 != k by {
            assert(r[i].0 == e[i].0);
        }
        lemma_key_position_absent(r, k);
    }
}

/// Every entry satisfies `pred`.
pub open spec fn all_entries(e: Seq<(Seq<char>, OrderEx)>, pred: spec_fn((Seq<char>, OrderEx)) -> bool) -> bool {
    forall|i: int| 0 <= i < e.len() ==> pred(#[trigger] e[i])
}

pub proof fn lemma_insert_all(e: Seq<(Seq<char>, OrderEx)>, k: Seq<char>, v: OrderEx, pred: spec_fn((Seq<char>, OrderEx)) -> bool)
    requires
        all_entries(e, pred),
        pred((k, v)),
    ensures
        all_entries(insert_effect(e, k, v), pred),
{
    lemma_key_position_found(e, k);
    let r = insert_effect(e, k, v);
    assert forall|i: int| 0 <= i < r.len() implies pred(#[trigger] r[i]) by {
        if key_position(e, k) >= 0 {
            if i != key_position(e, k) {
                assert(r[i] == e[i]);
            }
        } else if i < e.len() {
            assert(r[i] == e[i]);
        }
    }
}

pub proof fn lemma_remove_all(e: Seq<(Seq<char>, OrderEx)>, k: Seq<char>, pred: spec_fn((Seq<char>, OrderEx)) -> bool)
    requires
        all_entries(e, pred),
    ensures
        all_entries(remove_effect(e, k), pred),
{
    lemma_key_position_found(e, k);
    let r = remove_effect(e, k);
    if key_position(e, k) >= 0 {
        let p = key_position(e, k);
        assert forall|i: int| 0 <= i < r.len() implies pred(#[trigger] r[i]) by {
            let ii = if i < p { i } else { i + 1 };
            assert(r[i] == e[ii]);
        }
    }
}

/// `1` for a trigger order, else `0`.
pub open spec fn trigger_mark(x: (Seq<char>, OrderEx)) -> nat {
    if x.1.kind == Kind::Trigger {
        1
    } else {
        0
    }
}

/// Number of trigger orders among the entries.
pub open spec fn trigger_count(e: Seq<(Seq<char>, OrderEx)>) -> nat
    decreases e.len(),
{
    if e.len() == 0 {
        0
    } else {
        trigger_count(e.drop_last()) + trigger_mark(e.last())
    }
}

pub proof fn lemma_trigger_count_push(e: Seq<(Seq<char>, OrderEx)>, x: (Seq<char>, OrderEx))
    ensures
        trigger_count(e.push(x)) == trigger_count(e) + trigger_mark(x),
{
    assert(e.push(x).drop_last() =~= e);
}

pub proof fn lemma_trigger_count_update(e: Seq<(Seq<char>, OrderEx)>, p: int, x: (Seq<char>, OrderEx))
    requires
        0 <= p < e.len(),
    ensures
        trigger_count(e.update(p, x)) + trigger_mark(e[p]) == trigger_count(e) + trigger_mark(x),
    decreases e.len(),
{
    let u = e.update(p, x);
    if p == e.len() - 1 {
        assert(u.drop_last() =~= e.drop_last());
    } else {
        assert(u.drop_last() =~= e.drop_last().update(p, x));
        lemma_trigger_count_update(e.drop_last(), p, x);
    }
}

pub proof fn lemma_trigger_count_remove(e: Seq<(Seq<char>, OrderEx)>, p: int)
    requires
        0 <= p < e.len(),
    ensures
        trigger_count(e.remove(p)) + trigger_mark(e[p]) == trigger_count(e),
    decreases e.len(),
{
    let r = e.remove(p);
    if p == e.len() - 1 {
        assert(r =~= e.drop_last());
    } else {
        assert(r.drop_last() =~= e.drop_last().remove(p));
        lemma_trigger_count_remove(e.drop_last(), p);
    }
}

/// Inserting an entry adds at most its own mark to the count.
pub proof fn lemma_trigger_count_insert(e: Seq<(Seq<char>, OrderEx)>, k: Seq<char>, v: OrderEx)
    ensures
        trigger_count(insert_effect(e, k, v)) <= trigger_count(e) + trigger_mark((k, v)),
{
    lemma_key_position_found(e, k);
    if key_position(e, k) >= 0 {
        lemma_trigger_count_update(e, key_position(e, k), (k, v));
    } else {
        lemma_trigger_count_push(e, (k, v));
    }
}

/// Removing an entry never raises the count, and lowers it for a trigger order.
pub proof fn lemma_trigger_count_remove_key(e: Seq<(Seq<char>, OrderEx)>, k: Seq<char>)
    ensures
        trigger_count(remove_effect(e, k)) <= trigger_count(e),
        key_position(e, k) >= 0 ==> trigger_count(remove_effect(e, k)) + trigger_mark(e[key_position(e, k)])
            == trigger_count(e),
{
    lemma_key_position_found(e, k);
    if key_position(e, k) >= 0 {
        lemma_trigger_count_remove(e, key_position(e, k));
    }
}

/// `IndexMap::new`: an empty map.
#[verifier::external_body]
pub(crate) fn book_new() -> (r: IndexMap<String, OrderEx>)
    ensures
        book_entries(r) == Seq::<(Seq<char>, OrderEx)>::empty(),
{
    IndexMap::new()
}

/// `IndexMap::len`: the number of entries.
#[verifier::external_body]
pub(crate) fn book_len(m: &IndexMap<String, OrderEx>) -> (r: usize)
    ensures
        r == book_entries(*m).len(),
{
    m.len()
}

/// `IndexMap::get_index`: the value at a position.
#[verifier::external_body]
pub(crate) fn book_value_at(m: &IndexMap<String, OrderEx>, i: usize) -> (r: &OrderEx)
    requires
        i < book_entries(*m).len(),
    ensures
        *r == book_entries(*m)[i as int].1,
{
    m.get_index(i).unwrap().1
}

/// `IndexMap::get_index_of`: the position of a key, if present.
#[verifier::external_body]
pub(crate) fn book_position(m: &IndexMap<String, OrderEx>, key: &str) -> (r: Option<usize>)
    ensures
        r matches Some(i) ==> i < book_entries(*m).len() && book_entries(*m)[i as int].0 == key@,
        r is None ==> forall|i: int| 0 <= i < book_entries(*m).len() ==> #[trigger] book_entries(*m)[i].0 != key@,
{
    m.get_index_of(key)
}

/// `IndexMap::insert`: an existing key keeps its place and gets the new value (the old
/// one is returned); a new key is appended.
#[verifier::external_body]
pub(crate) fn book_insert(m: &mut IndexMap<String, OrderEx>, key: String, value: OrderEx) -> (r: Option<OrderEx>)
    ensures
        book_entries(*final(m)) == insert_effect(book_entries(*old(m)), key@, value),
        key_position(book_entries(*old(m)), key@) >= 0 ==> r == Some(book_entries(*old(m))[key_position(book_entries(*old(m)), key@)].1),
        key_position(book_entries(*old(m)), key@) < 0 ==> r is None,
{
    m.insert(key, value)
}

/// `IndexMap::shift_remove`: removes the key's entry, keeping the order of the rest.
#[verifier::external_body]
pub(crate) fn book_shift_remove(m: &mut IndexMap<String, OrderEx>, key: &str) -> (r: Option<OrderEx>)
    ensures
        book_entries(*final(m)) == remove_effect(book_entries(*old(m)), key@),
        key_position(book_entries(*old(m)), key@) >= 0 ==> r == Some(book_entries(*old(m))[key_position(book_entries(*old(m)), key@)].1),
        key_position(book_entries(*old(m)), key@) < 0 ==> r is None,
{
    m.shift_remove(key)
}

/// `IndexMap::get_index_mut`: replaces the value at a position, keeping its key.
#[verifier::external_body]
pub(crate) fn book_replace_at(m: &mut IndexMap<String, OrderEx>, i: usize, value: OrderEx)
    requires
        i < book_entries(*old(m)).len(),
    ensures
        book_entries(*final(m)) == book_entries(*old(m)).update(i as int, (book_entries(*old(m))[i as int].0, value)),
{
    *m.get_index_mut(i).unwrap().1 = value;
}

} // verus!

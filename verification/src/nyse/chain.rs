//! The records of an order point from each to the next.
use vstd::prelude::*;
use crate::nyse::data::{patched_rows, taq_encoding, OrderStatus};
use crate::taq::parser::Body;

verus! {

/// Whether a record is followed, in the life of its order, by another:
/// the other is about the same reference, or it is a replacement whose old
/// reference is the record's.
pub open spec fn follows(earlier: Seq<u64>, later: Seq<u64>) -> bool {
    if later[0] == 3 {
        later[7] == earlier[2]
    } else {
        later[2] == earlier[2]
    }
}

/// Whether a record continues the life of an order that an earlier record
/// began: it is none of a new order and none of a trade.
pub open spec fn continues(row: Seq<u64>) -> bool {
    1 <= row[0] <= 5
}

/// Whether the records of a symbol are chained, order by order.
///
/// The last number of a record is the index of the next record of the same
/// order, or 0 where the record is the last of its order so far. So every
/// record that points anywhere points forward, to a record that follows it
/// in the life of its order; every record that continues an order is
/// pointed to; and of every order that is remembered, the record that is
/// remembered as its last is about the order and points nowhere yet.
pub open spec fn chained(rows: Seq<Seq<u64>>, statuses: Map<u64, OrderStatus>) -> bool {
    &&& forall|i: int| 0 <= i < rows.len() ==> (#[trigger] rows[i]).len() == 9
    &&& forall|i: int|
        0 <= i < rows.len() && (#[trigger] rows[i])[8] != 0 ==> i < rows[i][8] < rows.len()
            && follows(rows[i], rows[rows[i][8] as int])
    &&& forall|j: int|
        0 <= j < rows.len() && continues(#[trigger] rows[j]) ==> pointed_to(rows, j)
    &&& forall|id: u64| #[trigger]
        statuses.contains_key(id) ==> {
            &&& statuses[id].index < rows.len()
            &&& rows[statuses[id].index as int][8] == 0
            &&& rows[statuses[id].index as int][2] == id
        }
    &&& forall|a: u64, b: u64|
        statuses.contains_key(a) && statuses.contains_key(b) && a != b ==> (
        #[trigger] statuses[a]).index != (#[trigger] statuses[b]).index
}

/// Whether an earlier record points to the record at an index.
pub open spec fn pointed_to(rows: Seq<Seq<u64>>, j: int) -> bool {
    exists|i: int| 0 <= i < j && (#[trigger] rows[i])[8] == j
}

/// No records, no orders: chained.
pub proof fn lemma_nothing_is_chained()
    ensures
        chained(Seq::<Seq<u64>>::empty(), Map::<u64, OrderStatus>::empty()),
{
}

/// What is remembered of the orders after one has gone, or none, and one
/// has come or changed, or none.
pub open spec fn remembered(
    statuses: Map<u64, OrderStatus>,
    gone: Option<u64>,
    fresh: Option<(u64, OrderStatus)>,
) -> Map<u64, OrderStatus> {
    let base = match gone {
        Some(id) => statuses.remove(id),
        None => statuses,
    };
    match fresh {
        Some((id, status)) => base.insert(id, status),
        None => base,
    }
}

/// Chained records stay chained when new records come behind them, the
/// last record of an order is made to point to the first of them, and what
/// is remembered of the orders follows.
pub proof fn lemma_step_keeps_chain(
    rows: Seq<Seq<u64>>,
    statuses: Map<u64, OrderStatus>,
    owner: Option<u64>,
    new_rows: Seq<Seq<u64>>,
    gone: Option<u64>,
    fresh: Option<(u64, OrderStatus)>,
)
    requires
        chained(rows, statuses),
        rows.len() + 2 <= usize::MAX,
        1 <= new_rows.len() <= 2,
        forall|k: int|
            0 <= k < new_rows.len() ==> (#[trigger] new_rows[k]).len() == 9 && new_rows[k][8] == 0,
        new_rows.len() == 2 ==> !continues(new_rows[1]),
        match owner {
            Some(id) => {
                &&& statuses.contains_key(id)
                &&& follows(rows[statuses[id].index as int], new_rows[0])
                &&& gone == Some(id) || (fresh matches Some(f) && f.0 == id)
            },
            None => !continues(new_rows[0]) && gone is None,
        },
        fresh matches Some(f) ==> f.1.index == rows.len() + new_rows.len() - 1 && new_rows.last()[2]
            == f.0,
    ensures
        chained(
            patched_rows(
                rows,
                match owner {
                    Some(id) => Some(statuses[id].index as int),
                    None => None,
                },
                rows.len() as u64,
            ) + new_rows,
            remembered(statuses, gone, fresh),
        ),
{
    let len = rows.len() as int;
    let at = match owner {
        Some(id) => Some(statuses[id].index as int),
        None => None,
    };
    let patched = patched_rows(rows, at, len as u64);
    let after = patched + new_rows;
    let kept = remembered(statuses, gone, fresh);
    assert forall|i: int| 0 <= i < after.len() implies (#[trigger] after[i]).len() == 9 by {
        if i < len {
            assert(rows[i].len() == 9);
        } else {
            assert(after[i] == new_rows[i - len]);
        }
    }
    assert forall|i: int| 0 <= i < after.len() && (#[trigger] after[i])[8] != 0 implies i
        < after[i][8] < after.len() && follows(after[i], after[after[i][8] as int]) by {
        if i < len {
            if at == Some(i) {
                assert(after[i][8] == len);
                assert(after[len] == new_rows[0]);
                assert(after[i][2] == rows[i][2]);
            } else {
                assert(after[i] == rows[i]);
                let next = rows[i][8] as int;
                assert(i < next < len);
                assert(rows[next].len() == 9);
                if at == Some(next) {
                    assert(after[next][0] == rows[next][0]);
                    assert(after[next][2] == rows[next][2]);
                    assert(after[next][7] == rows[next][7]);
                } else {
                    assert(after[next] == rows[next]);
                }
            }
        } else {
            assert(after[i] == new_rows[i - len]);
        }
    }
    assert forall|j: int| 0 <= j < after.len() && continues(#[trigger] after[j]) implies pointed_to(
        after,
        j,
    ) by {
        if j < len {
            assert(rows[j].len() == 9);
            assert(after[j][0] == rows[j][0]);
            assert(continues(rows[j]));
            assert(pointed_to(rows, j));
            let i = choose|i: int| 0 <= i < j && (#[trigger] rows[i])[8] == j;
            assert(rows[i].len() == 9);
            if at == Some(i) {
                assert(rows[i][8] == 0);
            }
            assert(after[i][8] == j);
        } else {
            assert(after[j] == new_rows[j - len]);
            assert(j == len);
            assert(owner is Some);
            let i = at->0;
            assert(after[i][8] == len);
        }
    }
    assert forall|id: u64| #[trigger] kept.contains_key(id) implies {
        &&& kept[id].index < after.len()
        &&& after[kept[id].index as int][8] == 0
        &&& after[kept[id].index as int][2] == id
    } by {
        if fresh matches Some(f) && f.0 == id {
            assert(after[len + new_rows.len() - 1] == new_rows.last());
        } else {
            assert(statuses.contains_key(id));
            assert(kept[id] == statuses[id]);
            let i = statuses[id].index as int;
            if owner is Some {
                let o = owner->0;
                assert(o != id);
                assert(statuses[o].index != statuses[id].index);
            }
            assert(after[i] == rows[i]);
        }
    }
    assert forall|a: u64, b: u64|
        kept.contains_key(a) && kept.contains_key(b) && a != b implies (#[trigger] kept[a]).index != (
    #[trigger] kept[b]).index by {
        if fresh matches Some(f) && f.0 == a {
            assert(statuses.contains_key(b));
        } else if fresh matches Some(f) && f.0 == b {
            assert(statuses.contains_key(a));
        } else {
            assert(statuses[a].index != statuses[b].index);
        }
    }
}

/// The records of a symbol stay chained when a message of the feed is
/// taken into them: from the first record of an order, following the
/// indices leads through every later record of the order, in their order,
/// and ends at a record that points nowhere.
pub proof fn lemma_encoding_keeps_chain(
    rows: Seq<Seq<u64>>,
    statuses: Map<u64, OrderStatus>,
    mpids: Map<Seq<char>, u64>,
    mpid_count: nat,
    msg: crate::taq::parser::Message,
)
    requires
        chained(rows, statuses),
        rows.len() + 2 <= usize::MAX,
        taq_encoding(statuses, mpids, mpid_count, rows.len(), msg) is Ok,
    ensures
        chained(
            patched_rows(
                rows,
                taq_encoding(statuses, mpids, mpid_count, rows.len(), msg)->Ok_0.patched,
                rows.len() as u64,
            ) + taq_encoding(statuses, mpids, mpid_count, rows.len(), msg)->Ok_0.rows,
            taq_encoding(statuses, mpids, mpid_count, rows.len(), msg)->Ok_0.statuses,
        ),
{
    let len = rows.len();
    let encoding = taq_encoding(statuses, mpids, mpid_count, len, msg)->Ok_0;
    let time = msg.source_time->0;
    match msg.body {
        Body::AddOrder(a) => {
            let status = encoding.statuses[a.order_id];
            lemma_step_keeps_chain(
                rows,
                statuses,
                None,
                encoding.rows,
                None,
                Some((a.order_id, status)),
            );
            assert(encoding.statuses =~= remembered(statuses, None, Some((a.order_id, status))));
        },
        Body::ModifyOrder(m) => {
            let status = encoding.statuses[m.order_id];
            lemma_step_keeps_chain(
                rows,
                statuses,
                Some(m.order_id),
                encoding.rows,
                None,
                Some((m.order_id, status)),
            );
            assert(encoding.statuses =~= remembered(statuses, None, Some((m.order_id, status))));
        },
        Body::DeleteOrder(d) => {
            lemma_step_keeps_chain(
                rows,
                statuses,
                Some(d.order_id),
                encoding.rows,
                Some(d.order_id),
                None,
            );
            assert(encoding.statuses =~= remembered(statuses, Some(d.order_id), None));
        },
        Body::ReplaceOrder(r) => {
            let status = encoding.statuses[r.new_order_id];
            lemma_step_keeps_chain(
                rows,
                statuses,
                Some(r.order_id),
                encoding.rows,
                Some(r.order_id),
                Some((r.new_order_id, status)),
            );
            assert(encoding.statuses =~= remembered(
                statuses,
                Some(r.order_id),
                Some((r.new_order_id, status)),
            ));
        },
        Body::OrderExecution(e) => {
            let status = encoding.statuses[e.order_id];
            lemma_step_keeps_chain(
                rows,
                statuses,
                Some(e.order_id),
                encoding.rows,
                None,
                Some((e.order_id, status)),
            );
            assert(encoding.statuses =~= remembered(statuses, None, Some((e.order_id, status))));
        },
        Body::CrossTrade(_) => {
            lemma_step_keeps_chain(rows, statuses, None, encoding.rows, None, None);
        },
        Body::NonDisplayedTrade(_) => {
            lemma_step_keeps_chain(rows, statuses, None, encoding.rows, None, None);
        },
        _ => {
            assert(patched_rows(rows, None, len as u64) + encoding.rows =~= rows);
        },
    }
}

} // verus!

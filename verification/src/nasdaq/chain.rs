//! The records of an order point from each to the next.
use vstd::prelude::*;
use crate::itchy::Body;
use crate::nasdaq::data::itch_encoding;
use crate::nyse::chain::{chained, lemma_step_keeps_chain, remembered};
use crate::nyse::data::{patched_rows, OrderStatus};

verus! {

/// The records of a security stay chained when a message of the feed is
/// taken into them: from the first record of an order, following the
/// indices leads through every later record of the order, in their order,
/// and ends at a record that points nowhere.
pub proof fn lemma_encoding_keeps_chain(
    rows: Seq<Seq<u64>>,
    statuses: Map<u64, OrderStatus>,
    mpids: Map<Seq<char>, u64>,
    mpid_count: nat,
    msg: crate::itchy::Message,
)
    requires
        chained(rows, statuses),
        rows.len() + 2 <= usize::MAX,
        itch_encoding(statuses, mpids, mpid_count, rows.len(), msg) is Ok,
    ensures
        chained(
            patched_rows(
                rows,
                itch_encoding(statuses, mpids, mpid_count, rows.len(), msg)->Ok_0.patched,
                rows.len() as u64,
            ) + itch_encoding(statuses, mpids, mpid_count, rows.len(), msg)->Ok_0.rows,
            itch_encoding(statuses, mpids, mpid_count, rows.len(), msg)->Ok_0.statuses,
        ),
{
    let len = rows.len();
    let encoding = itch_encoding(statuses, mpids, mpid_count, len, msg)->Ok_0;
    match msg.body {
        Body::AddOrder(a) => {
            let status = encoding.statuses[a.reference];
            lemma_step_keeps_chain(
                rows,
                statuses,
                None,
                encoding.rows,
                None,
                Some((a.reference, status)),
            );
            assert(encoding.statuses =~= remembered(statuses, None, Some((a.reference, status))));
        },
        Body::DeleteOrder { reference } => {
            lemma_step_keeps_chain(
                rows,
                statuses,
                Some(reference),
                encoding.rows,
                Some(reference),
                None,
            );
            assert(encoding.statuses =~= remembered(statuses, Some(reference), None));
        },
        Body::OrderCancelled { reference, .. } => {
            let status = encoding.statuses[reference];
            lemma_step_keeps_chain(
                rows,
                statuses,
                Some(reference),
                encoding.rows,
                None,
                Some((reference, status)),
            );
            assert(encoding.statuses =~= remembered(statuses, None, Some((reference, status))));
        },
        Body::OrderExecuted { reference, .. } => {
            let status = encoding.statuses[reference];
            lemma_step_keeps_chain(
                rows,
                statuses,
                Some(reference),
                encoding.rows,
                None,
                Some((reference, status)),
            );
            assert(encoding.statuses =~= remembered(statuses, None, Some((reference, status))));
        },
        Body::OrderExecutedWithPrice { reference, .. } => {
            let status = encoding.statuses[reference];
            lemma_step_keeps_chain(
                rows,
                statuses,
                Some(reference),
                encoding.rows,
                None,
                Some((reference, status)),
            );
            assert(encoding.statuses =~= remembered(statuses, None, Some((reference, status))));
        },
        Body::ReplaceOrder(r) => {
            let status = encoding.statuses[r.new_reference];
            lemma_step_keeps_chain(
                rows,
                statuses,
                Some(r.old_reference),
                encoding.rows,
                Some(r.old_reference),
                Some((r.new_reference, status)),
            );
            assert(encoding.statuses =~= remembered(
                statuses,
                Some(r.old_reference),
                Some((r.new_reference, status)),
            ));
        },
        Body::CrossTrade(_) => {
            if encoding.rows.len() > 0 {
                lemma_step_keeps_chain(rows, statuses, None, encoding.rows, None, None);
            } else {
                assert(patched_rows(rows, None, len as u64) + encoding.rows =~= rows);
            }
        },
        Body::NonCrossTrade(_) => {
            lemma_step_keeps_chain(rows, statuses, None, encoding.rows, None, None);
        },
        _ => {
            assert(patched_rows(rows, None, len as u64) + encoding.rows =~= rows);
        },
    }
}

} // verus!

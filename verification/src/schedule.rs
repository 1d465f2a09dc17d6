//! The batch of delegated operations of a poll, kept in ascending order.
use vstd::prelude::*;
use crate::types::ExecuteData;

verus! {

/// No operation stands before one of a smaller order number.
pub open spec fn ascending(s: Seq<ExecuteData>) -> bool {
    forall|i: int, j: int| 0 <= i < j < s.len() ==> s[i].order <= s[j].order
}

/// The operations of `s` with order number `k`, in the order in which they stand.
pub open spec fn of_order(s: Seq<ExecuteData>, k: u64) -> Seq<ExecuteData> {
    s.filter(|e: ExecuteData| e.order == k)
}

/// `sorted` holds the operations of `given` in ascending order, those of equal
/// order number in the order in which they were given.
pub open spec fn stably_sorted(given: Seq<ExecuteData>, sorted: Seq<ExecuteData>) -> bool {
    &&& ascending(sorted)
    &&& sorted.len() == given.len()
    &&& forall|k: u64| of_order(sorted, k) == of_order(given, k)
}

/// Two operations with the same order number, target and payload.
pub open spec fn same_operation(a: ExecuteData, b: ExecuteData) -> bool {
    a.order == b.order && a.contract@ == b.contract@ && a.msg@ == b.msg@
}

/// Two batches of the same length whose operations agree one by one.
pub open spec fn same_operations(a: Seq<ExecuteData>, b: Seq<ExecuteData>) -> bool {
    a.len() == b.len() && forall|i: int| 0 <= i < a.len() ==> same_operation(#[trigger] a[i], b[i])
}

/// Appending an operation appends it to the operations of its order number.
proof fn lemma_of_order_push(s: Seq<ExecuteData>, x: ExecuteData, k: u64)
    ensures
        of_order(s.push(x), k) == (if x.order == k {
            of_order(s, k).push(x)
        } else {
            of_order(s, k)
        }),
{
    reveal(Seq::filter);
    assert(s.push(x).drop_last() =~= s);
}

/// Inserting an operation before those of greater order numbers only is, for
/// the operations of each order number, the same as appending it.
proof fn lemma_of_order_insert(s: Seq<ExecuteData>, p: int, x: ExecuteData, k: u64)
    requires
        0 <= p <= s.len(),
        forall|i: int| p <= i < s.len() ==> s[i].order > x.order,
    ensures
        of_order(s.insert(p, x), k) == of_order(s.push(x), k),
{
    let pred = |e: ExecuteData| e.order == k;
    let head = s.take(p);
    let tail = s.skip(p);
    assert(s.insert(p, x) =~= head.push(x) + tail);
    assert(s =~= head + tail);
    Seq::filter_distributes_over_add(head.push(x), tail, pred);
    Seq::filter_distributes_over_add(head, tail, pred);
    lemma_of_order_push(head, x, k);
    lemma_of_order_push(s, x, k);
    if x.order == k {
        assert(tail.all(|e: ExecuteData| !pred(e))) by {
            assert forall|i: int| 0 <= i < tail.len() implies !pred(#[trigger] tail[i]) by {
                assert(tail[i] == s[p + i]);
            }
        }
        tail.lemma_all_neg_filter_empty(pred);
        assert(tail.filter(pred) =~= Seq::<ExecuteData>::empty());
        assert(head.filter(pred) + tail.filter(pred) =~= head.filter(pred));
        assert(head.filter(pred).push(x) + tail.filter(pred) =~= head.filter(pred).push(x));
    }
}

/// Sorts the operations by order number, keeping those of equal number in the
/// order in which they were given.
pub fn sort_by_order(msgs: Vec<ExecuteData>) -> (out: Vec<ExecuteData>)
    ensures
        stably_sorted(msgs@, out@),
{
    let ghost given = msgs@;
    let mut rest = msgs;
    let mut out: Vec<ExecuteData> = Vec::new();
    let ghost done: int = 0;
    proof {
        assert(given.take(0) =~= Seq::<ExecuteData>::empty());
        reveal(Seq::filter);
    }
    while rest.len() > 0
        invariant
            0 <= done <= given.len(),
            rest@ == given.skip(done),
            out@.len() == done,
            ascending(out@),
            forall|k: u64| of_order(out@, k) == of_order(given.take(done), k),
        decreases rest@.len(),
    {
        let item = rest.remove(0);
        let mut p: usize = 0;
        while p < out.len() && out[p].order <= item.order
            invariant
                p <= out@.len(),
                forall|i: int| 0 <= i < p ==> out@[i].order <= item.order,
            decreases out@.len() - p,
        {
            p += 1;
        }
        proof {
            let before = out@;
            assert(item == given[done]);
            assert(given.take(done + 1) =~= given.take(done).push(item));
            assert(given.skip(done).remove(0) =~= given.skip(done + 1));
            assert forall|i: int| p <= i < before.len() implies before[i].order > item.order by {
                assert(before[p as int].order <= before[i].order);
            }
            assert forall|k: u64| of_order(before.insert(p as int, item), k) == of_order(given.take(done + 1), k) by {
                lemma_of_order_insert(before, p as int, item, k);
                lemma_of_order_push(before, item, k);
                lemma_of_order_push(given.take(done), item, k);
            }
            assert(ascending(before.insert(p as int, item)));
            done = done + 1;
        }
        out.insert(p, item);
    }
    proof {
        assert(given.take(done) =~= given);
    }
    out
}

/// Whether the batch stands in ascending order.
pub fn is_ascending(ops: &Vec<ExecuteData>) -> (r: bool)
    ensures
        r == ascending(ops@),
{
    let mut i: usize = 1;
    while i < ops.len()
        invariant
            1 <= i,
            forall|a: int, b: int| 0 <= a < b < i && b < ops@.len() ==> ops@[a].order <= ops@[b].order,
        decreases ops@.len() - i,
    {
        if ops[i - 1].order > ops[i].order {
            return false;
        }
        proof {
            assert forall|a: int, b: int| 0 <= a < b < i + 1 && b < ops@.len() implies ops@[a].order
                <= ops@[b].order by {
                if b == i && a < i - 1 {
                    assert(ops@[a].order <= ops@[i - 1].order);
                }
            }
        }
        i += 1;
    }
    true
}

/// A copy of the payload.
fn copy_bytes(bytes: &Vec<u8>) -> (out: Vec<u8>)
    ensures
        out@ == bytes@,
{
    let mut out: Vec<u8> = Vec::new();
    let mut i: usize = 0;
    while i < bytes.len()
        invariant
            i <= bytes@.len(),
            out@ == bytes@.take(i as int),
        decreases bytes@.len() - i,
    {
        out.push(bytes[i]);
        proof {
            assert(bytes@.take(i + 1) =~= bytes@.take(i as int).push(bytes@[i as int]));
        }
        i += 1;
    }
    proof {
        assert(bytes@.take(i as int) =~= bytes@);
    }
    out
}

/// A copy of the batch, operation by operation.
pub fn copy_operations(ops: &Vec<ExecuteData>) -> (out: Vec<ExecuteData>)
    ensures
        same_operations(out@, ops@),
{
    let mut out: Vec<ExecuteData> = Vec::new();
    let mut i: usize = 0;
    while i < ops.len()
        invariant
            i <= ops@.len(),
            out@.len() == i,
            forall|j: int| 0 <= j < i ==> same_operation(#[trigger] out@[j], ops@[j]),
        decreases ops@.len() - i,
    {
        let op = &ops[i];
        out.push(ExecuteData { order: op.order, contract: op.contract.clone(), msg: copy_bytes(&op.msg) });
        i += 1;
    }
    out
}

} // verus!

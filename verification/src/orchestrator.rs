//! The transfer orchestrator's scheduling state.
//!
//! The orchestrator tracks which transfers are active in each direction,
//! keeps a FIFO queue per direction for commands that arrive while every
//! slot is taken, and owns the conflict-resolver registrations of active
//! receives. Its methods are pure state transitions: they return the
//! progress events to emit and the actions — task starts, cancellations,
//! resolution deliveries — for the runtime to perform. The active count
//! never exceeds the configured limit in either direction, and each
//! direction holds at most one task or queue entry per id: a `Send` or
//! `Receive` whose id is already registered in its direction is ignored,
//! so the first registration wins.

use vstd::prelude::*;

use crate::events::{ConflictResolution, EventModel, TransferCommand, TransferLimits, TransferProgress};

verus! {

/// A send accepted while no slot was free.
#[derive(Debug)]
pub struct QueuedSend {
    pub id: String,
    pub paths: Vec<String>,
    pub follow_symlinks: bool,
}

/// A receive accepted while no slot was free.
#[derive(Debug)]
pub struct QueuedReceive {
    pub id: String,
    pub ticket: String,
    pub output_dir: String,
}

/// Work the runtime performs on the orchestrator's behalf.
#[derive(Debug)]
pub enum Action {
    /// Spawn a send task.
    StartSend { id: String, paths: Vec<String>, follow_symlinks: bool },
    /// Spawn a receive task.
    StartReceive { id: String, ticket: String, output_dir: String },
    /// Fire the cancellation token of the active task with this id.
    CancelTask { id: String },
    /// Deliver a conflict resolution to the receive task with this id.
    SendResolution { id: String, resolution: ConflictResolution },
    /// Leave the event loop.
    Stop,
}

/// Whether a ticket text parses as a blob ticket; parsing depends on the
/// text alone.
pub uninterp spec fn ticket_ok(s: Seq<char>) -> bool;

/// Relies on iroh-blobs' blob-ticket parser: whether the text is a
/// well-formed ticket, a function of the text alone.
#[verifier::external_body]
fn ticket_parses(s: &str) -> (r: bool)
    ensures
        r == ticket_ok(s@),
{
    s.parse::<iroh_blobs::ticket::BlobTicket>().is_ok()
}

/// Whether the command is a receive whose ticket does not parse.
pub open spec fn malformed_ticket(cmd: &TransferCommand) -> bool {
    match cmd {
        TransferCommand::Receive { ticket, .. } => !ticket_ok(ticket@),
        _ => false,
    }
}

/// Whether some id in the list reads as `id`.
pub open spec fn contains_id(ids: Seq<String>, id: Seq<char>) -> bool {
    exists|i: int| 0 <= i < ids.len() && (#[trigger] ids[i])@ == id
}

/// The ids whose text differs from `id`, in order.
pub open spec fn without_id(ids: Seq<String>, id: Seq<char>) -> Seq<String>
    decreases ids.len(),
{
    if ids.len() == 0 {
        Seq::<String>::empty()
    } else {
        let rest = without_id(ids.drop_first(), id);
        if ids[0]@ == id {
            rest
        } else {
            seq![ids[0]] + rest
        }
    }
}

/// The ids that do not occur in `gone`, in order.
pub open spec fn retain_ids(ids: Seq<String>, gone: Seq<String>) -> Seq<String>
    decreases ids.len(),
{
    if ids.len() == 0 {
        Seq::<String>::empty()
    } else {
        let rest = retain_ids(ids.drop_first(), gone);
        if contains_id(gone, ids[0]@) {
            rest
        } else {
            seq![ids[0]] + rest
        }
    }
}

/// Removing ids never lengthens the list.
pub proof fn lemma_without_id_len(ids: Seq<String>, id: Seq<char>)
    ensures
        without_id(ids, id).len() <= ids.len(),
    decreases ids.len(),
{
    if ids.len() > 0 {
        lemma_without_id_len(ids.drop_first(), id);
    }
}

/// Retaining ids never lengthens the list.
pub proof fn lemma_retain_ids_len(ids: Seq<String>, gone: Seq<String>)
    ensures
        retain_ids(ids, gone).len() <= ids.len(),
    decreases ids.len(),
{
    if ids.len() > 0 {
        lemma_retain_ids_len(ids.drop_first(), gone);
    }
}

/// No id in the list reads as any other.
pub open spec fn unique_ids(ids: Seq<String>) -> bool {
    forall|i: int, j: int|
        0 <= i < j < ids.len() ==> (#[trigger] ids[i])@ != (#[trigger] ids[j])@
}

/// An id survives removal exactly when it was there and is not the
/// removed one.
pub proof fn lemma_without_id_membership(ids: Seq<String>, x: Seq<char>, y: Seq<char>)
    ensures
        contains_id(without_id(ids, x), y) <==> (contains_id(ids, y) && y != x),
    decreases ids.len(),
{
    if ids.len() > 0 {
        lemma_without_id_membership(ids.drop_first(), x, y);
        let rest = without_id(ids.drop_first(), x);
        assert(contains_id(ids.drop_first(), y) ==> contains_id(ids, y)) by {
            if contains_id(ids.drop_first(), y) {
                let w = choose|w: int|
                    0 <= w < ids.drop_first().len() && (#[trigger] ids.drop_first()[w])@ == y;
                assert(ids[w + 1]@ == y);
            }
        }
        if ids[0]@ == x {
            assert(without_id(ids, x) == rest);
            if contains_id(ids, y) && y != x {
                let w = choose|w: int| 0 <= w < ids.len() && (#[trigger] ids[w])@ == y;
                assert(w != 0);
                assert(ids.drop_first()[w - 1]@ == y);
            }
        } else {
            assert(without_id(ids, x) == seq![ids[0]] + rest);
            let out = seq![ids[0]] + rest;
            assert(out[0] == ids[0]);
            assert(forall|k: int| 1 <= k < out.len() ==> out[k] == rest[k - 1]);
            if contains_id(out, y) {
                let w = choose|w: int| 0 <= w < out.len() && (#[trigger] out[w])@ == y;
                if w == 0 {
                    assert(contains_id(ids, y));
                } else {
                    assert(contains_id(rest, y));
                }
            }
            if contains_id(ids, y) && y != x {
                let w = choose|w: int| 0 <= w < ids.len() && (#[trigger] ids[w])@ == y;
                if w == 0 {
                    assert(out[0]@ == y);
                } else {
                    assert(ids.drop_first()[w - 1]@ == y);
                    assert(contains_id(rest, y));
                    let v = choose|v: int| 0 <= v < rest.len() && (#[trigger] rest[v])@ == y;
                    assert(out[v + 1]@ == y);
                }
            }
        }
    }
}

/// An id survives reaping exactly when it was there and is not reaped.
pub proof fn lemma_retain_ids_membership(ids: Seq<String>, gone: Seq<String>, y: Seq<char>)
    ensures
        contains_id(retain_ids(ids, gone), y) <==> (contains_id(ids, y) && !contains_id(gone, y)),
    decreases ids.len(),
{
    if ids.len() > 0 {
        lemma_retain_ids_membership(ids.drop_first(), gone, y);
        let rest = retain_ids(ids.drop_first(), gone);
        assert(contains_id(ids.drop_first(), y) ==> contains_id(ids, y)) by {
            if contains_id(ids.drop_first(), y) {
                let w = choose|w: int|
                    0 <= w < ids.drop_first().len() && (#[trigger] ids.drop_first()[w])@ == y;
                assert(ids[w + 1]@ == y);
            }
        }
        if contains_id(gone, ids[0]@) {
            assert(retain_ids(ids, gone) == rest);
            if contains_id(ids, y) && !contains_id(gone, y) {
                let w = choose|w: int| 0 <= w < ids.len() && (#[trigger] ids[w])@ == y;
                assert(w != 0);
                assert(ids.drop_first()[w - 1]@ == y);
            }
        } else {
            let out = seq![ids[0]] + rest;
            assert(retain_ids(ids, gone) == out);
            assert(out[0] == ids[0]);
            assert(forall|k: int| 1 <= k < out.len() ==> out[k] == rest[k - 1]);
            if contains_id(out, y) {
                let w = choose|w: int| 0 <= w < out.len() && (#[trigger] out[w])@ == y;
                if w == 0 {
                } else {
                    assert(contains_id(rest, y));
                }
            }
            if contains_id(ids, y) && !contains_id(gone, y) {
                let w = choose|w: int| 0 <= w < ids.len() && (#[trigger] ids[w])@ == y;
                if w == 0 {
                    assert(out[0]@ == y);
                } else {
                    assert(ids.drop_first()[w - 1]@ == y);
                    let v = choose|v: int| 0 <= v < rest.len() && (#[trigger] rest[v])@ == y;
                    assert(out[v + 1]@ == y);
                }
            }
        }
    }
}

/// Removal keeps the remaining ids distinct.
pub proof fn lemma_without_id_unique(ids: Seq<String>, x: Seq<char>)
    requires
        unique_ids(ids),
    ensures
        unique_ids(without_id(ids, x)),
    decreases ids.len(),
{
    if ids.len() > 0 {
        assert(forall|i: int, j: int|
            0 <= i < j < ids.drop_first().len() ==> (#[trigger] ids.drop_first()[i])@ != (
            #[trigger] ids.drop_first()[j])@) by {
            assert(forall|k: int|
                0 <= k < ids.drop_first().len() ==> ids.drop_first()[k] == ids[k + 1]);
        }
        lemma_without_id_unique(ids.drop_first(), x);
        let rest = without_id(ids.drop_first(), x);
        if ids[0]@ != x {
            let out = seq![ids[0]] + rest;
            assert forall|i: int, j: int| 0 <= i < j < out.len() implies (#[trigger] out[i])@ != (
            #[trigger] out[j])@ by {
                if i == 0 {
                    assert(out[j] == rest[j - 1]);
                    assert(!contains_id(ids.drop_first(), ids[0]@)) by {
                        if contains_id(ids.drop_first(), ids[0]@) {
                            let w = choose|w: int|
                                0 <= w < ids.drop_first().len() && (#[trigger] ids.drop_first()[w])@
                                    == ids[0]@;
                            assert(ids[w + 1]@ == ids[0]@);
                        }
                    }
                    lemma_without_id_membership(ids.drop_first(), x, out[j]@);
                    assert(contains_id(rest, rest[j - 1]@));
                } else {
                    assert(out[i] == rest[i - 1] && out[j] == rest[j - 1]);
                }
            }
        }
    }
}

/// Reaping keeps the remaining ids distinct.
pub proof fn lemma_retain_ids_unique(ids: Seq<String>, gone: Seq<String>)
    requires
        unique_ids(ids),
    ensures
        unique_ids(retain_ids(ids, gone)),
    decreases ids.len(),
{
    if ids.len() > 0 {
        assert(forall|i: int, j: int|
            0 <= i < j < ids.drop_first().len() ==> (#[trigger] ids.drop_first()[i])@ != (
            #[trigger] ids.drop_first()[j])@) by {
            assert(forall|k: int|
                0 <= k < ids.drop_first().len() ==> ids.drop_first()[k] == ids[k + 1]);
        }
        lemma_retain_ids_unique(ids.drop_first(), gone);
        let rest = retain_ids(ids.drop_first(), gone);
        if !contains_id(gone, ids[0]@) {
            let out = seq![ids[0]] + rest;
            assert forall|i: int, j: int| 0 <= i < j < out.len() implies (#[trigger] out[i])@ != (
            #[trigger] out[j])@ by {
                if i == 0 {
                    assert(out[j] == rest[j - 1]);
                    assert(!contains_id(ids.drop_first(), ids[0]@)) by {
                        if contains_id(ids.drop_first(), ids[0]@) {
                            let w = choose|w: int|
                                0 <= w < ids.drop_first().len() && (#[trigger] ids.drop_first()[w])@
                                    == ids[0]@;
                            assert(ids[w + 1]@ == ids[0]@);
                        }
                    }
                    lemma_retain_ids_membership(ids.drop_first(), gone, out[j]@);
                    assert(contains_id(rest, rest[j - 1]@));
                } else {
                    assert(out[i] == rest[i - 1] && out[j] == rest[j - 1]);
                }
            }
        }
    }
}

/// Whether some queued send carries this id.
pub open spec fn sq_contains(q: Seq<QueuedSend>, id: Seq<char>) -> bool {
    exists|i: int| 0 <= i < q.len() && (#[trigger] q[i]).id@ == id
}

/// The queued sends whose id differs, in order.
pub open spec fn sq_without(q: Seq<QueuedSend>, id: Seq<char>) -> Seq<QueuedSend>
    decreases q.len(),
{
    if q.len() == 0 {
        Seq::<QueuedSend>::empty()
    } else {
        let rest = sq_without(q.drop_first(), id);
        if q[0].id@ == id {
            rest
        } else {
            seq![q[0]] + rest
        }
    }
}

/// Whether some queued receive carries this id.
pub open spec fn rq_contains(q: Seq<QueuedReceive>, id: Seq<char>) -> bool {
    exists|i: int| 0 <= i < q.len() && (#[trigger] q[i]).id@ == id
}

/// No two queued sends share an id.
pub open spec fn sq_unique(q: Seq<QueuedSend>) -> bool {
    forall|i: int, j: int|
        0 <= i < j < q.len() ==> (#[trigger] q[i]).id@ != (#[trigger] q[j]).id@
}

/// No two queued receives share an id.
pub open spec fn rq_unique(q: Seq<QueuedReceive>) -> bool {
    forall|i: int, j: int|
        0 <= i < j < q.len() ==> (#[trigger] q[i]).id@ != (#[trigger] q[j]).id@
}

/// Every send left by a removal was queued before, under another id.
pub proof fn lemma_sq_without_entries(q: Seq<QueuedSend>, x: Seq<char>)
    ensures
        forall|i: int|
            0 <= i < sq_without(q, x).len() ==> (#[trigger] sq_without(q, x)[i]).id@ != x
                && q.contains(sq_without(q, x)[i]),
        sq_unique(q) ==> sq_unique(sq_without(q, x)),
    decreases q.len(),
{
    if q.len() > 0 {
        assert(forall|k: int| 0 <= k < q.drop_first().len() ==> q.drop_first()[k] == q[k + 1]);
        assert(forall|e: QueuedSend| q.drop_first().contains(e) ==> q.contains(e)) by {
            assert forall|e: QueuedSend| q.drop_first().contains(e) implies q.contains(e) by {
                let w = choose|w: int|
                    0 <= w < q.drop_first().len() && q.drop_first()[w] == e;
                assert(q[w + 1] == e);
            }
        }
        lemma_sq_without_entries(q.drop_first(), x);
        let rest = sq_without(q.drop_first(), x);
        if q[0].id@ != x {
            let out = seq![q[0]] + rest;
            assert(out[0] == q[0]);
            assert(forall|k: int| 1 <= k < out.len() ==> out[k] == rest[k - 1]);
            assert(q.contains(q[0]));
            if sq_unique(q) {
                assert(sq_unique(q.drop_first()));
                assert forall|i: int, j: int| 0 <= i < j < out.len() implies (
                #[trigger] out[i]).id@ != (#[trigger] out[j]).id@ by {
                    if i == 0 {
                        assert(out[j] == rest[j - 1]);
                        assert(q.contains(rest[j - 1]));
                        let w = choose|w: int| 0 <= w < q.len() && q[w] == rest[j - 1];
                        assert(rest[j - 1].id@ != x);
                        if w == 0 {
                            assert(q[0].id@ != x);
                            assert(rest[j - 1] == q[0]);
                            assert(!q.drop_first().contains(q[0]) ==> true);
                            // q[0] reappearing in rest would need q[0] among
                            // the later entries, against uniqueness
                            let v = choose|v: int|
                                0 <= v < q.drop_first().len() && q.drop_first().contains(
                                    rest[j - 1],
                                ) && q.drop_first()[v] == rest[j - 1];
                            assert(q[v + 1].id@ == q[0].id@);
                        } else {
                            assert(q[w].id@ != q[0].id@);
                        }
                    } else {
                        assert(out[i] == rest[i - 1] && out[j] == rest[j - 1]);
                    }
                }
            }
        }
    }
}

/// Every receive left by a removal was queued before, under another id.
pub proof fn lemma_rq_without_entries(q: Seq<QueuedReceive>, x: Seq<char>)
    ensures
        forall|i: int|
            0 <= i < rq_without(q, x).len() ==> (#[trigger] rq_without(q, x)[i]).id@ != x
                && q.contains(rq_without(q, x)[i]),
        rq_unique(q) ==> rq_unique(rq_without(q, x)),
    decreases q.len(),
{
    if q.len() > 0 {
        assert(forall|k: int| 0 <= k < q.drop_first().len() ==> q.drop_first()[k] == q[k + 1]);
        assert(forall|e: QueuedReceive| q.drop_first().contains(e) ==> q.contains(e)) by {
            assert forall|e: QueuedReceive| q.drop_first().contains(e) implies q.contains(e) by {
                let w = choose|w: int|
                    0 <= w < q.drop_first().len() && q.drop_first()[w] == e;
                assert(q[w + 1] == e);
            }
        }
        lemma_rq_without_entries(q.drop_first(), x);
        let rest = rq_without(q.drop_first(), x);
        if q[0].id@ != x {
            let out = seq![q[0]] + rest;
            assert(out[0] == q[0]);
            assert(forall|k: int| 1 <= k < out.len() ==> out[k] == rest[k - 1]);
            assert(q.contains(q[0]));
            if rq_unique(q) {
                assert(rq_unique(q.drop_first()));
                assert forall|i: int, j: int| 0 <= i < j < out.len() implies (
                #[trigger] out[i]).id@ != (#[trigger] out[j]).id@ by {
                    if i == 0 {
                        assert(out[j] == rest[j - 1]);
                        assert(q.contains(rest[j - 1]));
                        let w = choose|w: int| 0 <= w < q.len() && q[w] == rest[j - 1];
                        assert(rest[j - 1].id@ != x);
                        if w == 0 {
                            let v = choose|v: int|
                                0 <= v < q.drop_first().len() && q.drop_first().contains(
                                    rest[j - 1],
                                ) && q.drop_first()[v] == rest[j - 1];
                            assert(q[v + 1].id@ == q[0].id@);
                        } else {
                            assert(q[w].id@ != q[0].id@);
                        }
                    } else {
                        assert(out[i] == rest[i - 1] && out[j] == rest[j - 1]);
                    }
                }
            }
        }
    }
}

/// The queued receives whose id differs, in order.
pub open spec fn rq_without(q: Seq<QueuedReceive>, id: Seq<char>) -> Seq<QueuedReceive>
    decreases q.len(),
{
    if q.len() == 0 {
        Seq::<QueuedReceive>::empty()
    } else {
        let rest = rq_without(q.drop_first(), id);
        if q[0].id@ == id {
            rest
        } else {
            seq![q[0]] + rest
        }
    }
}

/// Whether some id in the list reads as `id`.
pub fn vec_contains_id(ids: &Vec<String>, id: &String) -> (r: bool)
    ensures
        r <==> contains_id(ids@, id@),
{
    let mut i: usize = 0;
    while i < ids.len()
        invariant
            0 <= i <= ids@.len(),
            forall|j: int| 0 <= j < i ==> (#[trigger] ids@[j])@ != id@,
        decreases ids@.len() - i,
    {
        if ids[i] == *id {
            return true;
        }
        i = i + 1;
    }
    false
}

/// Removes every id that reads as `id`.
pub fn remove_id(ids: &mut Vec<String>, id: &String)
    ensures
        final(ids)@ == without_id(old(ids)@, id@),
{
    let ghost orig = ids@;
    let mut kept: Vec<String> = Vec::new();
    proof {
        assert(orig.skip(0) =~= orig);
        assert(kept@ + without_id(orig.skip(0), id@) =~= without_id(orig, id@));
    }
    let mut i: usize = 0;
    while i < ids.len()
        invariant
            0 <= i <= ids@.len(),
            ids@ == orig,
            without_id(orig, id@) == kept@ + without_id(orig.skip(i as int), id@),
        decreases ids@.len() - i,
    {
        let ghost rest = orig.skip(i as int);
        proof {
            assert(rest.len() > 0);
            assert(rest[0] == orig[i as int]);
            assert(rest.drop_first() =~= orig.skip(i as int + 1));
        }
        let keep = !(ids[i] == *id);
        if keep {
            let cur = ids[i].clone();
            let ghost kept0 = kept@;
            kept.push(cur);
            proof {
                assert(kept@ =~= kept0.push(orig[i as int]));
                assert(without_id(rest, id@) =~= seq![orig[i as int]] + without_id(
                    rest.drop_first(),
                    id@,
                ));
                assert(kept@ + without_id(orig.skip(i as int + 1), id@) =~= kept0 + without_id(
                    rest,
                    id@,
                ));
            }
        } else {
            proof {
                assert(without_id(rest, id@) =~= without_id(rest.drop_first(), id@));
            }
        }
        i = i + 1;
    }
    proof {
        assert(orig.skip(i as int) =~= Seq::<String>::empty());
        assert(without_id(orig.skip(i as int), id@) =~= Seq::<String>::empty());
        assert(kept@ =~= without_id(orig, id@));
    }
    *ids = kept;
}

/// Removes every queued send whose id reads as `id`.
fn remove_queued_send(q: &mut Vec<QueuedSend>, id: &String)
    ensures
        final(q)@ == sq_without(old(q)@, id@),
{
    let ghost orig = q@;
    let mut kept: Vec<QueuedSend> = Vec::new();
    proof {
        assert(kept@ + sq_without(orig, id@) =~= sq_without(orig, id@));
    }
    while q.len() > 0
        invariant
            sq_without(orig, id@) == kept@ + sq_without(q@, id@),
        decreases q@.len(),
    {
        let ghost pre = q@;
        let item = q.remove(0);
        proof {
            assert(q@ =~= pre.drop_first());
            assert(item == pre[0]);
        }
        if !(item.id == *id) {
            let ghost kept0 = kept@;
            kept.push(item);
            proof {
                assert(sq_without(pre, id@) =~= seq![pre[0]] + sq_without(pre.drop_first(), id@));
                assert(kept@ =~= kept0.push(pre[0]));
                assert(kept@ + sq_without(q@, id@) =~= kept0 + sq_without(pre, id@));
            }
        } else {
            proof {
                assert(sq_without(pre, id@) =~= sq_without(pre.drop_first(), id@));
            }
        }
    }
    proof {
        assert(sq_without(q@, id@) =~= Seq::<QueuedSend>::empty());
        assert(kept@ =~= sq_without(orig, id@));
    }
    *q = kept;
}

/// Removes every queued receive whose id reads as `id`.
fn remove_queued_receive(q: &mut Vec<QueuedReceive>, id: &String)
    ensures
        final(q)@ == rq_without(old(q)@, id@),
{
    let ghost orig = q@;
    let mut kept: Vec<QueuedReceive> = Vec::new();
    proof {
        assert(kept@ + rq_without(orig, id@) =~= rq_without(orig, id@));
    }
    while q.len() > 0
        invariant
            rq_without(orig, id@) == kept@ + rq_without(q@, id@),
        decreases q@.len(),
    {
        let ghost pre = q@;
        let item = q.remove(0);
        proof {
            assert(q@ =~= pre.drop_first());
            assert(item == pre[0]);
        }
        if !(item.id == *id) {
            let ghost kept0 = kept@;
            kept.push(item);
            proof {
                assert(rq_without(pre, id@) =~= seq![pre[0]] + rq_without(pre.drop_first(), id@));
                assert(kept@ =~= kept0.push(pre[0]));
                assert(kept@ + rq_without(q@, id@) =~= kept0 + rq_without(pre, id@));
            }
        } else {
            proof {
                assert(rq_without(pre, id@) =~= rq_without(pre.drop_first(), id@));
            }
        }
    }
    proof {
        assert(rq_without(q@, id@) =~= Seq::<QueuedReceive>::empty());
        assert(kept@ =~= rq_without(orig, id@));
    }
    *q = kept;
}

/// Whether some queued send carries this id.
fn send_queue_contains(q: &Vec<QueuedSend>, id: &String) -> (r: bool)
    ensures
        r <==> sq_contains(q@, id@),
{
    let mut i: usize = 0;
    while i < q.len()
        invariant
            0 <= i <= q@.len(),
            forall|j: int| 0 <= j < i ==> (#[trigger] q@[j]).id@ != id@,
        decreases q@.len() - i,
    {
        if q[i].id == *id {
            return true;
        }
        i = i + 1;
    }
    false
}

/// Whether some queued receive carries this id.
fn receive_queue_contains(q: &Vec<QueuedReceive>, id: &String) -> (r: bool)
    ensures
        r <==> rq_contains(q@, id@),
{
    let mut i: usize = 0;
    while i < q.len()
        invariant
            0 <= i <= q@.len(),
            forall|j: int| 0 <= j < i ==> (#[trigger] q@[j]).id@ != id@,
        decreases q@.len() - i,
    {
        if q[i].id == *id {
            return true;
        }
        i = i + 1;
    }
    false
}

/// One `CancelTask` action per id, in order.
pub open spec fn cancel_actions(ids: Seq<String>) -> Seq<Action> {
    Seq::new(ids.len(), |i: int| Action::CancelTask { id: ids[i] })
}

/// Ghost model of the orchestrator's state.
pub struct OrchModel {
    pub active_sends: Seq<String>,
    pub active_receives: Seq<String>,
    pub resolvers: Seq<String>,
    pub send_queue: Seq<QueuedSend>,
    pub receive_queue: Seq<QueuedReceive>,
    pub limits: TransferLimits,
}

impl OrchModel {
    /// The scheduling invariant: active counts never exceed the configured
    /// limits; each direction holds at most one task or queue entry per
    /// id, queued ids never shadow active ones, and every registered
    /// conflict resolver belongs to an active receive.
    pub open spec fn wf(self) -> bool {
        &&& self.active_sends.len() <= self.limits.max_concurrent_sends
        &&& self.active_receives.len() <= self.limits.max_concurrent_receives
        &&& unique_ids(self.active_sends)
        &&& unique_ids(self.active_receives)
        &&& unique_ids(self.resolvers)
        &&& sq_unique(self.send_queue)
        &&& rq_unique(self.receive_queue)
        &&& forall|i: int|
            0 <= i < self.send_queue.len() ==> !contains_id(
                self.active_sends,
                (#[trigger] self.send_queue[i]).id@,
            )
        &&& forall|i: int|
            0 <= i < self.receive_queue.len() ==> !contains_id(
                self.active_receives,
                (#[trigger] self.receive_queue[i]).id@,
            )
        &&& forall|i: int|
            0 <= i < self.resolvers.len() ==> contains_id(
                self.active_receives,
                (#[trigger] self.resolvers[i])@,
            )
    }
}

/// The scheduling state of the transfer orchestrator.
#[derive(Debug)]
pub struct Orchestrator {
    /// Ids of sends running now.
    pub active_sends: Vec<String>,
    /// Ids of receives running now.
    pub active_receives: Vec<String>,
    /// Ids of receives whose conflict resolver is still registered.
    pub resolvers: Vec<String>,
    /// Sends waiting for a slot, oldest first.
    pub send_queue: Vec<QueuedSend>,
    /// Receives waiting for a slot, oldest first.
    pub receive_queue: Vec<QueuedReceive>,
    /// The concurrency limits.
    pub limits: TransferLimits,
}

/// What one command does to the state, and which events and actions follow:
/// the transition relation of the orchestrator.
pub open spec fn handle_spec(m: OrchModel, cmd: TransferCommand) -> (
    OrchModel,
    Seq<TransferProgress>,
    Seq<Action>,
) {
    match cmd {
        TransferCommand::Send { id, paths, follow_symlinks } => {
            if paths@.len() == 0 {
                (m, Seq::<TransferProgress>::empty(), Seq::<Action>::empty())
            } else if contains_id(m.active_sends, id@) || sq_contains(m.send_queue, id@) {
                // One task per id: the first registration wins, silently.
                (m, Seq::<TransferProgress>::empty(), Seq::<Action>::empty())
            } else if m.active_sends.len() < m.limits.max_concurrent_sends {
                (
                    OrchModel { active_sends: m.active_sends.push(id), ..m },
                    Seq::<TransferProgress>::empty(),
                    seq![Action::StartSend { id, paths, follow_symlinks }],
                )
            } else {
                (
                    OrchModel {
                        send_queue: m.send_queue.push(QueuedSend { id, paths, follow_symlinks }),
                        ..m
                    },
                    seq![
                        TransferProgress::Queued {
                            id,
                            position: (m.send_queue.len() + 1) as usize,
                        },
                    ],
                    Seq::<Action>::empty(),
                )
            }
        },
        TransferCommand::Receive { id, ticket, output_dir } => {
            if contains_id(m.active_receives, id@) || rq_contains(m.receive_queue, id@) {
                // One task per id: the first registration wins, silently.
                (m, Seq::<TransferProgress>::empty(), Seq::<Action>::empty())
            } else if m.active_receives.len() < m.limits.max_concurrent_receives {
                (
                    OrchModel {
                        active_receives: m.active_receives.push(id),
                        resolvers: m.resolvers.push(id),
                        ..m
                    },
                    Seq::<TransferProgress>::empty(),
                    seq![Action::StartReceive { id, ticket, output_dir }],
                )
            } else {
                (
                    OrchModel {
                        receive_queue: m.receive_queue.push(
                            QueuedReceive { id, ticket, output_dir },
                        ),
                        ..m
                    },
                    seq![
                        TransferProgress::Queued {
                            id,
                            position: (m.receive_queue.len() + 1) as usize,
                        },
                    ],
                    Seq::<Action>::empty(),
                )
            }
        },
        TransferCommand::ResolveConflict { id, resolution } => {
            if contains_id(m.resolvers, id@) {
                (
                    OrchModel { resolvers: without_id(m.resolvers, id@), ..m },
                    Seq::<TransferProgress>::empty(),
                    seq![Action::SendResolution { id, resolution }],
                )
            } else {
                (m, Seq::<TransferProgress>::empty(), Seq::<Action>::empty())
            }
        },
        TransferCommand::Cancel { id } => {
            if sq_contains(m.send_queue, id@) || rq_contains(m.receive_queue, id@) {
                (
                    OrchModel {
                        send_queue: sq_without(m.send_queue, id@),
                        receive_queue: rq_without(m.receive_queue, id@),
                        ..m
                    },
                    seq![TransferProgress::Cancelled { id }],
                    Seq::<Action>::empty(),
                )
            } else {
                let in_s = contains_id(m.active_sends, id@);
                let in_r = contains_id(m.active_receives, id@);
                (
                    OrchModel {
                        active_sends: without_id(m.active_sends, id@),
                        active_receives: without_id(m.active_receives, id@),
                        resolvers: if in_r {
                            without_id(m.resolvers, id@)
                        } else {
                            m.resolvers
                        },
                        ..m
                    },
                    Seq::<TransferProgress>::empty(),
                    (if in_s {
                        seq![Action::CancelTask { id }]
                    } else {
                        Seq::<Action>::empty()
                    }) + (if in_r {
                        seq![Action::CancelTask { id }]
                    } else {
                        Seq::<Action>::empty()
                    }),
                )
            }
        },
        TransferCommand::Shutdown => {
            (
                OrchModel {
                    active_sends: Seq::<String>::empty(),
                    active_receives: Seq::<String>::empty(),
                    resolvers: Seq::<String>::empty(),
                    ..m
                },
                Seq::<TransferProgress>::empty(),
                cancel_actions(m.active_sends) + cancel_actions(m.active_receives) + seq![
                    Action::Stop,
                ],
            )
        },
    }
}

impl Orchestrator {
    /// The ghost model of this state.
    pub open spec fn model(&self) -> OrchModel {
        OrchModel {
            active_sends: self.active_sends@,
            active_receives: self.active_receives@,
            resolvers: self.resolvers@,
            send_queue: self.send_queue@,
            receive_queue: self.receive_queue@,
            limits: self.limits,
        }
    }

    /// An orchestrator with nothing active or queued.
    pub fn new(limits: TransferLimits) -> (r: Self)
        ensures
            r.model().active_sends == Seq::<String>::empty(),
            r.model().active_receives == Seq::<String>::empty(),
            r.model().resolvers == Seq::<String>::empty(),
            r.model().send_queue == Seq::<QueuedSend>::empty(),
            r.model().receive_queue == Seq::<QueuedReceive>::empty(),
            r.model().limits == limits,
            r.model().wf(),
    {
        Orchestrator {
            active_sends: Vec::new(),
            active_receives: Vec::new(),
            resolvers: Vec::new(),
            send_queue: Vec::new(),
            receive_queue: Vec::new(),
            limits,
        }
    }

    /// Accepts one command: starts or queues transfers, routes conflict
    /// resolutions, cancels queued or active transfers, and shuts down.
    /// A send with no paths is rejected before any event is emitted; a
    /// receive whose ticket does not parse yields exactly one `Failed`
    /// record and no task or endpoint; a
    /// send or receive whose id is already active or queued in its
    /// direction is ignored, the first registration winning; and
    /// cancelling a queued transfer emits exactly one `Cancelled` event
    /// and starts nothing.
    pub fn handle_command(&mut self, cmd: TransferCommand) -> (r: (
        Vec<TransferProgress>,
        Vec<Action>,
    ))
        requires
            old(self).model().wf(),
        ensures
            !malformed_ticket(&cmd) ==> (final(self).model(), r.0@, r.1@) == handle_spec(
                old(self).model(),
                cmd,
            ),
            cmd matches TransferCommand::Receive { id, ticket, .. } ==> (!ticket_ok(ticket@)
                ==> ({
                &&& final(self).model() == old(self).model()
                &&& r.1@ == Seq::<Action>::empty()
                &&& r.0@.len() == 1
                &&& r.0@[0]@ == (crate::events::EventModel::Failed {
                    id: id@,
                    error: "invalid ticket"@,
                })
            })),
            final(self).model().wf(),
            final(self).model().limits == old(self).model().limits,
    {
        match cmd {
            TransferCommand::Send { id, paths, follow_symlinks } => {
                let mut events: Vec<TransferProgress> = Vec::new();
                let mut actions: Vec<Action> = Vec::new();
                if paths.len() == 0 {
                    return (events, actions);
                }
                if vec_contains_id(&self.active_sends, &id)
                    || send_queue_contains(&self.send_queue, &id) {
                    return (events, actions);
                }
                if self.active_sends.len() < self.limits.max_concurrent_sends {
                    self.active_sends.push(id.clone());
                    actions.push(Action::StartSend { id, paths, follow_symlinks });
                    proof {
                        let a0 = old(self).model().active_sends;
                        assert forall|i: int, j: int|
                            0 <= i < j < self.active_sends@.len() implies (
                        #[trigger] self.active_sends@[i])@ != (#[trigger] self.active_sends@[j])@
                            by {
                            if j == a0.len() {
                                assert(self.active_sends@[j]@ == a0[i]@ ==> contains_id(
                                    a0,
                                    self.active_sends@[j]@,
                                ));
                            }
                        }
                    }
                } else {
                    self.send_queue.push(QueuedSend { id: id.clone(), paths, follow_symlinks });
                    let position = self.send_queue.len();
                    events.push(TransferProgress::Queued { id, position });
                    proof {
                        let q0 = old(self).model().send_queue;
                        assert forall|i: int, j: int|
                            0 <= i < j < self.send_queue@.len() implies (
                        #[trigger] self.send_queue@[i]).id@ != (#[trigger] self.send_queue@[j]).id@
                            by {
                            if j == q0.len() {
                                assert(self.send_queue@[j].id@ == q0[i].id@ ==> sq_contains(
                                    q0,
                                    self.send_queue@[j].id@,
                                ));
                            }
                        }
                    }
                }
                (events, actions)
            },
            TransferCommand::Receive { id, ticket, output_dir } => {
                let mut events: Vec<TransferProgress> = Vec::new();
                let mut actions: Vec<Action> = Vec::new();
                if !ticket_parses(ticket.as_str()) {
                    // A malformed ticket never starts a task: one failed
                    // record, no endpoint and no slot.
                    events.push(
                        TransferProgress::Failed {
                            id,
                            error: "invalid ticket".to_owned(),
                        },
                    );
                    return (events, actions);
                }
                if vec_contains_id(&self.active_receives, &id)
                    || receive_queue_contains(&self.receive_queue, &id) {
                    return (events, actions);
                }
                if self.active_receives.len() < self.limits.max_concurrent_receives {
                    self.active_receives.push(id.clone());
                    self.resolvers.push(id.clone());
                    actions.push(Action::StartReceive { id, ticket, output_dir });
                    proof {
                        let a0 = old(self).model().active_receives;
                        let r0 = old(self).model().resolvers;
                        assert(!contains_id(r0, self.resolvers@.last()@)) by {
                            if contains_id(r0, self.resolvers@.last()@) {
                                let w = choose|w: int|
                                    0 <= w < r0.len() && (#[trigger] r0[w])@
                                        == self.resolvers@.last()@;
                                assert(contains_id(a0, r0[w]@));
                            }
                        }
                        assert forall|i: int, j: int|
                            0 <= i < j < self.active_receives@.len() implies (
                        #[trigger] self.active_receives@[i])@ != (
                        #[trigger] self.active_receives@[j])@ by {
                            if j == a0.len() {
                                assert(self.active_receives@[j]@ == a0[i]@ ==> contains_id(
                                    a0,
                                    self.active_receives@[j]@,
                                ));
                            }
                        }
                        assert forall|i: int, j: int|
                            0 <= i < j < self.resolvers@.len() implies (
                        #[trigger] self.resolvers@[i])@ != (#[trigger] self.resolvers@[j])@ by {
                            if j == r0.len() {
                                assert(self.resolvers@[j]@ == r0[i]@ ==> contains_id(
                                    r0,
                                    self.resolvers@[j]@,
                                ));
                            }
                        }
                        assert forall|i: int|
                            0 <= i < self.resolvers@.len() implies contains_id(
                            self.active_receives@,
                            (#[trigger] self.resolvers@[i])@,
                        ) by {
                            if i < r0.len() {
                                let w = choose|w: int|
                                    0 <= w < a0.len() && (#[trigger] a0[w])@ == r0[i]@;
                                assert(self.active_receives@[w]@ == r0[i]@);
                            } else {
                                assert(self.active_receives@[a0.len() as int]@
                                    == self.resolvers@[i]@);
                            }
                        }
                        assert forall|i: int|
                            0 <= i < self.receive_queue@.len() implies !contains_id(
                            self.active_receives@,
                            (#[trigger] self.receive_queue@[i]).id@,
                        ) by {
                            if contains_id(self.active_receives@, self.receive_queue@[i].id@) {
                                let w = choose|w: int|
                                    0 <= w < self.active_receives@.len() && (
                                    #[trigger] self.active_receives@[w])@
                                        == self.receive_queue@[i].id@;
                                if w < a0.len() {
                                    assert(contains_id(a0, self.receive_queue@[i].id@));
                                } else {
                                    assert(rq_contains(
                                        old(self).model().receive_queue,
                                        self.active_receives@[w]@,
                                    ));
                                }
                            }
                        }
                    }
                } else {
                    self.receive_queue.push(
                        QueuedReceive { id: id.clone(), ticket, output_dir },
                    );
                    let position = self.receive_queue.len();
                    events.push(TransferProgress::Queued { id, position });
                    proof {
                        let q0 = old(self).model().receive_queue;
                        assert forall|i: int, j: int|
                            0 <= i < j < self.receive_queue@.len() implies (
                        #[trigger] self.receive_queue@[i]).id@ != (
                        #[trigger] self.receive_queue@[j]).id@ by {
                            if j == q0.len() {
                                assert(self.receive_queue@[j].id@ == q0[i].id@ ==> rq_contains(
                                    q0,
                                    self.receive_queue@[j].id@,
                                ));
                            }
                        }
                    }
                }
                (events, actions)
            },
            TransferCommand::ResolveConflict { id, resolution } => {
                let mut events: Vec<TransferProgress> = Vec::new();
                let mut actions: Vec<Action> = Vec::new();
                if vec_contains_id(&self.resolvers, &id) {
                    remove_id(&mut self.resolvers, &id);
                    proof {
                        let r0 = old(self).model().resolvers;
                        lemma_without_id_unique(r0, id@);
                        assert forall|i: int|
                            0 <= i < self.resolvers@.len() implies contains_id(
                            self.active_receives@,
                            (#[trigger] self.resolvers@[i])@,
                        ) by {
                            lemma_without_id_membership(r0, id@, self.resolvers@[i]@);
                            assert(contains_id(self.resolvers@, self.resolvers@[i]@));
                        }
                    }
                    actions.push(Action::SendResolution { id, resolution });
                }
                (events, actions)
            },
            TransferCommand::Cancel { id } => {
                let mut events: Vec<TransferProgress> = Vec::new();
                let mut actions: Vec<Action> = Vec::new();
                let was_queued = send_queue_contains(&self.send_queue, &id)
                    || receive_queue_contains(&self.receive_queue, &id);
                if was_queued {
                    remove_queued_send(&mut self.send_queue, &id);
                    remove_queued_receive(&mut self.receive_queue, &id);
                    proof {
                        let sq0 = old(self).model().send_queue;
                        let rq0 = old(self).model().receive_queue;
                        lemma_sq_without_entries(sq0, id@);
                        lemma_rq_without_entries(rq0, id@);
                        assert forall|i: int|
                            0 <= i < self.send_queue@.len() implies !contains_id(
                            self.active_sends@,
                            (#[trigger] self.send_queue@[i]).id@,
                        ) by {
                            assert(sq0.contains(self.send_queue@[i]));
                            let w = choose|w: int|
                                0 <= w < sq0.len() && sq0[w] == self.send_queue@[i];
                            assert(!contains_id(self.active_sends@, sq0[w].id@));
                        }
                        assert forall|i: int|
                            0 <= i < self.receive_queue@.len() implies !contains_id(
                            self.active_receives@,
                            (#[trigger] self.receive_queue@[i]).id@,
                        ) by {
                            assert(rq0.contains(self.receive_queue@[i]));
                            let w = choose|w: int|
                                0 <= w < rq0.len() && rq0[w] == self.receive_queue@[i];
                            assert(!contains_id(self.active_receives@, rq0[w].id@));
                        }
                    }
                    events.push(TransferProgress::Cancelled { id });
                } else {
                    let in_s = vec_contains_id(&self.active_sends, &id);
                    let in_r = vec_contains_id(&self.active_receives, &id);
                    if in_s {
                        remove_id(&mut self.active_sends, &id);
                        actions.push(Action::CancelTask { id: id.clone() });
                    }
                    if in_r {
                        remove_id(&mut self.active_receives, &id);
                        remove_id(&mut self.resolvers, &id);
                        actions.push(Action::CancelTask { id: id.clone() });
                    }
                    proof {
                        let as0 = old(self).model().active_sends;
                        let ar0 = old(self).model().active_receives;
                        let r0 = old(self).model().resolvers;
                        lemma_without_id_len(as0, id@);
                        lemma_without_id_len(ar0, id@);
                        lemma_without_id_unique(as0, id@);
                        lemma_without_id_unique(ar0, id@);
                        if in_r {
                            lemma_without_id_unique(r0, id@);
                        }
                        if !in_s {
                            assert(without_id(as0, id@) =~= as0) by {
                                lemma_without_id_absent(as0, id@);
                            }
                        }
                        if !in_r {
                            assert(without_id(ar0, id@) =~= ar0) by {
                                lemma_without_id_absent(ar0, id@);
                            }
                        }
                        assert forall|i: int|
                            0 <= i < self.send_queue@.len() implies !contains_id(
                            self.active_sends@,
                            (#[trigger] self.send_queue@[i]).id@,
                        ) by {
                            if contains_id(self.active_sends@, self.send_queue@[i].id@) {
                                lemma_without_id_membership(as0, id@, self.send_queue@[i].id@);
                            }
                        }
                        assert forall|i: int|
                            0 <= i < self.receive_queue@.len() implies !contains_id(
                            self.active_receives@,
                            (#[trigger] self.receive_queue@[i]).id@,
                        ) by {
                            if contains_id(self.active_receives@, self.receive_queue@[i].id@) {
                                lemma_without_id_membership(ar0, id@, self.receive_queue@[i].id@);
                            }
                        }
                        assert forall|i: int|
                            0 <= i < self.resolvers@.len() implies contains_id(
                            self.active_receives@,
                            (#[trigger] self.resolvers@[i])@,
                        ) by {
                            if in_r {
                                lemma_without_id_membership(r0, id@, self.resolvers@[i]@);
                                assert(contains_id(self.resolvers@, self.resolvers@[i]@));
                                lemma_without_id_membership(ar0, id@, self.resolvers@[i]@);
                            } else {
                                assert(contains_id(r0, self.resolvers@[i]@));
                                assert(contains_id(ar0, self.resolvers@[i]@));
                                // the cancelled id is no active receive, so no
                                // surviving resolver can read as it
                                assert(self.resolvers@[i]@ != id@);
                                lemma_without_id_membership(ar0, id@, self.resolvers@[i]@);
                            }
                        }
                    }
                }
                (events, actions)
            },
            TransferCommand::Shutdown => {
                let mut events: Vec<TransferProgress> = Vec::new();
                let mut actions: Vec<Action> = Vec::new();
                let ghost sends0 = self.active_sends@;
                let ghost receives0 = self.active_receives@;
                let ghost res0 = self.resolvers@;
                let ghost sq0 = self.send_queue@;
                let ghost rq0 = self.receive_queue@;
                let ghost lim0 = self.limits;
                proof {
                    assert(actions@ =~= cancel_actions(sends0.take(0)));
                    assert(self.active_sends@ =~= sends0.skip(0));
                }
                while self.active_sends.len() > 0
                    invariant
                        self.active_sends@.len() <= sends0.len(),
                        actions@ == cancel_actions(
                            sends0.take(sends0.len() - self.active_sends@.len()),
                        ),
                        self.active_sends@ == sends0.skip(
                            sends0.len() - self.active_sends@.len(),
                        ),
                        self.active_receives@ == receives0,
                        self.resolvers@ == res0,
                        self.send_queue@ == sq0,
                        self.receive_queue@ == rq0,
                        self.limits == lim0,
                    decreases self.active_sends@.len(),
                {
                    let ghost pre = self.active_sends@;
                    let ghost k = sends0.len() - pre.len();
                    let id = self.active_sends.remove(0);
                    proof {
                        assert(self.active_sends@ =~= pre.drop_first());
                        assert(id == sends0[k as int]);
                    }
                    actions.push(Action::CancelTask { id });
                    proof {
                        assert(actions@ =~= cancel_actions(sends0.take(k + 1)));
                        assert(self.active_sends@ =~= sends0.skip(k + 1));
                    }
                }
                proof {
                    assert(sends0.take(sends0.len() as int) =~= sends0);
                    assert(actions@ =~= cancel_actions(sends0));
                }
                proof {
                    assert(self.active_receives@ =~= receives0.skip(0));
                    assert(receives0.take(0) =~= Seq::<String>::empty());
                    assert(cancel_actions(receives0.take(0)) =~= Seq::<Action>::empty());
                    assert(actions@ =~= cancel_actions(sends0) + cancel_actions(receives0.take(0)));
                }
                while self.active_receives.len() > 0
                    invariant
                        self.active_receives@.len() <= receives0.len(),
                        actions@ == cancel_actions(sends0) + cancel_actions(
                            receives0.take(receives0.len() - self.active_receives@.len()),
                        ),
                        self.active_receives@ == receives0.skip(
                            receives0.len() - self.active_receives@.len(),
                        ),
                        self.active_sends@ == Seq::<String>::empty(),
                        self.resolvers@ == res0,
                        self.send_queue@ == sq0,
                        self.receive_queue@ == rq0,
                        self.limits == lim0,
                    decreases self.active_receives@.len(),
                {
                    let ghost pre = self.active_receives@;
                    let ghost k = receives0.len() - pre.len();
                    let id = self.active_receives.remove(0);
                    proof {
                        assert(self.active_receives@ =~= pre.drop_first());
                        assert(id == receives0[k as int]);
                    }
                    actions.push(Action::CancelTask { id });
                    proof {
                        assert(actions@ =~= cancel_actions(sends0) + cancel_actions(
                            receives0.take(k + 1),
                        ));
                        assert(self.active_receives@ =~= receives0.skip(k + 1));
                    }
                }
                proof {
                    assert(receives0.take(receives0.len() as int) =~= receives0);
                    assert(self.active_receives@ =~= Seq::<String>::empty());
                }
                self.resolvers = Vec::new();
                actions.push(Action::Stop);
                proof {
                    assert(actions@ =~= cancel_actions(sends0) + cancel_actions(receives0) + seq![
                        Action::Stop,
                    ]);
                    assert(events@ =~= Seq::<TransferProgress>::empty());
                    assert(self.resolvers@ =~= Seq::<String>::empty());
                    assert(self.model() == OrchModel {
                        active_sends: Seq::<String>::empty(),
                        active_receives: Seq::<String>::empty(),
                        resolvers: Seq::<String>::empty(),
                        ..old(self).model()
                    });
                }
                (events, actions)
            },
        }
    }
}

/// Removing an id that is not in the list leaves it unchanged.
pub proof fn lemma_without_id_absent(ids: Seq<String>, id: Seq<char>)
    requires
        !contains_id(ids, id),
    ensures
        without_id(ids, id) =~= ids,
    decreases ids.len(),
{
    if ids.len() > 0 {
        assert(ids[0]@ != id);
        assert(!contains_id(ids.drop_first(), id)) by {
            if contains_id(ids.drop_first(), id) {
                let j = choose|j: int|
                    0 <= j < ids.drop_first().len() && (#[trigger] ids.drop_first()[j])@ == id;
                assert(ids[j + 1]@ == id);
            }
        }
        lemma_without_id_absent(ids.drop_first(), id);
        assert(without_id(ids, id) =~= seq![ids[0]] + ids.drop_first());
        assert(seq![ids[0]] + ids.drop_first() =~= ids);
    }
}


/// Retains the ids not listed in `gone`.
fn retain_not_finished(ids: &mut Vec<String>, gone: &Vec<String>)
    ensures
        final(ids)@ == retain_ids(old(ids)@, gone@),
{
    let ghost orig = ids@;
    let mut kept: Vec<String> = Vec::new();
    proof {
        assert(kept@ + retain_ids(orig, gone@) =~= retain_ids(orig, gone@));
    }
    while ids.len() > 0
        invariant
            retain_ids(orig, gone@) == kept@ + retain_ids(ids@, gone@),
        decreases ids@.len(),
    {
        let ghost pre = ids@;
        let item = ids.remove(0);
        proof {
            assert(ids@ =~= pre.drop_first());
            assert(item == pre[0]);
        }
        if !vec_contains_id(gone, &item) {
            let ghost kept0 = kept@;
            kept.push(item);
            proof {
                assert(retain_ids(pre, gone@) =~= seq![pre[0]] + retain_ids(
                    pre.drop_first(),
                    gone@,
                ));
                assert(kept@ =~= kept0.push(pre[0]));
                assert(kept@ + retain_ids(ids@, gone@) =~= kept0 + retain_ids(pre, gone@));
            }
        } else {
            proof {
                assert(retain_ids(pre, gone@) =~= retain_ids(pre.drop_first(), gone@));
            }
        }
    }
    proof {
        assert(retain_ids(ids@, gone@) =~= Seq::<String>::empty());
        assert(kept@ =~= retain_ids(orig, gone@));
    }
    *ids = kept;
}

/// The reposition events for a queue: each entry's 1-based index.
pub open spec fn queued_send_events(q: Seq<QueuedSend>) -> Seq<TransferProgress> {
    Seq::new(
        q.len(),
        |i: int| TransferProgress::Queued { id: q[i].id, position: (i + 1) as usize },
    )
}

/// The reposition events for a receive queue: each entry's 1-based index.
pub open spec fn queued_receive_events(q: Seq<QueuedReceive>) -> Seq<TransferProgress> {
    Seq::new(
        q.len(),
        |i: int| TransferProgress::Queued { id: q[i].id, position: (i + 1) as usize },
    )
}

/// Outcome of a send-promotion pass.
pub struct PromoteSendsOut {
    pub active: Seq<String>,
    pub queue: Seq<QueuedSend>,
    pub events: Seq<TransferProgress>,
    pub actions: Seq<Action>,
}

/// Promoting queued sends while a slot is free: each promotion starts the
/// queue's head and re-emits the positions of the entries still waiting.
pub open spec fn promote_sends_spec(
    active: Seq<String>,
    limit: nat,
    q: Seq<QueuedSend>,
) -> PromoteSendsOut
    decreases q.len(),
{
    if active.len() < limit && q.len() > 0 {
        let head = q[0];
        let rest = q.drop_first();
        let out = promote_sends_spec(active.push(head.id), limit, rest);
        PromoteSendsOut {
            active: out.active,
            queue: out.queue,
            events: queued_send_events(rest) + out.events,
            actions: seq![
                Action::StartSend {
                    id: head.id,
                    paths: head.paths,
                    follow_symlinks: head.follow_symlinks,
                },
            ] + out.actions,
        }
    } else {
        PromoteSendsOut {
            active,
            queue: q,
            events: Seq::<TransferProgress>::empty(),
            actions: Seq::<Action>::empty(),
        }
    }
}

/// Outcome of a receive-promotion pass.
pub struct PromoteReceivesOut {
    pub active: Seq<String>,
    pub resolvers: Seq<String>,
    pub queue: Seq<QueuedReceive>,
    pub events: Seq<TransferProgress>,
    pub actions: Seq<Action>,
}

/// Promoting queued receives while a slot is free; each promoted receive
/// also registers its conflict resolver.
pub open spec fn promote_receives_spec(
    active: Seq<String>,
    resolvers: Seq<String>,
    limit: nat,
    q: Seq<QueuedReceive>,
) -> PromoteReceivesOut
    decreases q.len(),
{
    if active.len() < limit && q.len() > 0 {
        let head = q[0];
        let rest = q.drop_first();
        let out = promote_receives_spec(active.push(head.id), resolvers.push(head.id), limit, rest);
        PromoteReceivesOut {
            active: out.active,
            resolvers: out.resolvers,
            queue: out.queue,
            events: queued_receive_events(rest) + out.events,
            actions: seq![
                Action::StartReceive { id: head.id, ticket: head.ticket, output_dir: head.output_dir },
            ] + out.actions,
        }
    } else {
        PromoteReceivesOut {
            active,
            resolvers,
            queue: q,
            events: Seq::<TransferProgress>::empty(),
            actions: Seq::<Action>::empty(),
        }
    }
}

impl Orchestrator {
    /// Drops finished tasks from the active tables, and the conflict
    /// resolvers of finished receives, freeing their slots.
    pub fn reap(&mut self, finished: &Vec<String>)
        requires
            old(self).model().wf(),
        ensures
            final(self).model().wf(),
            final(self).active_sends@ == retain_ids(old(self).active_sends@, finished@),
            final(self).active_receives@ == retain_ids(old(self).active_receives@, finished@),
            final(self).resolvers@ == retain_ids(old(self).resolvers@, finished@),
            final(self).send_queue@ == old(self).send_queue@,
            final(self).receive_queue@ == old(self).receive_queue@,
            final(self).limits == old(self).limits,
    {
        retain_not_finished(&mut self.active_sends, finished);
        retain_not_finished(&mut self.active_receives, finished);
        retain_not_finished(&mut self.resolvers, finished);
        proof {
            let as0 = old(self).model().active_sends;
            let ar0 = old(self).model().active_receives;
            let r0 = old(self).model().resolvers;
            lemma_retain_ids_len(as0, finished@);
            lemma_retain_ids_len(ar0, finished@);
            lemma_retain_ids_unique(as0, finished@);
            lemma_retain_ids_unique(ar0, finished@);
            lemma_retain_ids_unique(r0, finished@);
            assert forall|i: int|
                0 <= i < self.send_queue@.len() implies !contains_id(
                self.active_sends@,
                (#[trigger] self.send_queue@[i]).id@,
            ) by {
                if contains_id(self.active_sends@, self.send_queue@[i].id@) {
                    lemma_retain_ids_membership(as0, finished@, self.send_queue@[i].id@);
                }
            }
            assert forall|i: int|
                0 <= i < self.receive_queue@.len() implies !contains_id(
                self.active_receives@,
                (#[trigger] self.receive_queue@[i]).id@,
            ) by {
                if contains_id(self.active_receives@, self.receive_queue@[i].id@) {
                    lemma_retain_ids_membership(ar0, finished@, self.receive_queue@[i].id@);
                }
            }
            assert forall|i: int|
                0 <= i < self.resolvers@.len() implies contains_id(
                self.active_receives@,
                (#[trigger] self.resolvers@[i])@,
            ) by {
                lemma_retain_ids_membership(r0, finished@, self.resolvers@[i]@);
                assert(contains_id(self.resolvers@, self.resolvers@[i]@));
                lemma_retain_ids_membership(ar0, finished@, self.resolvers@[i]@);
            }
        }
    }

    /// Starts queued sends while a send slot is free. After the pass the
    /// send queue is empty or every send slot is taken, so a freed slot is
    /// refilled within the same tick.
    pub fn promote_sends(&mut self) -> (r: (Vec<TransferProgress>, Vec<Action>))
        requires
            old(self).model().wf(),
        ensures
            final(self).model().wf(),
            ({
                let out = promote_sends_spec(
                    old(self).active_sends@,
                    old(self).limits.max_concurrent_sends as nat,
                    old(self).send_queue@,
                );
                &&& final(self).active_sends@ == out.active
                &&& final(self).send_queue@ == out.queue
                &&& r.0@ == out.events
                &&& r.1@ == out.actions
            }),
            final(self).active_receives@ == old(self).active_receives@,
            final(self).resolvers@ == old(self).resolvers@,
            final(self).receive_queue@ == old(self).receive_queue@,
            final(self).limits == old(self).limits,
            final(self).send_queue@.len() == 0 || final(self).active_sends@.len()
                == final(self).limits.max_concurrent_sends,
    {
        let ghost a0 = self.active_sends@;
        let ghost q0 = self.send_queue@;
        let ghost lim0 = self.limits;
        let ghost limn = self.limits.max_concurrent_sends as nat;
        let ghost out = promote_sends_spec(a0, limn, q0);
        let ghost receives0 = self.active_receives@;
        let ghost res0 = self.resolvers@;
        let ghost rq0 = self.receive_queue@;
        let mut events: Vec<TransferProgress> = Vec::new();
        let mut actions: Vec<Action> = Vec::new();
        proof {
            assert(events@ + out.events =~= out.events);
            assert(actions@ + out.actions =~= out.actions);
        }
        while self.active_sends.len() < self.limits.max_concurrent_sends && self.send_queue.len()
            > 0
            invariant
                self.limits == lim0,
                limn == lim0.max_concurrent_sends as nat,
                self.active_receives@ == receives0,
                self.resolvers@ == res0,
                self.receive_queue@ == rq0,
                self.active_sends@.len() <= lim0.max_concurrent_sends,
                unique_ids(self.active_sends@),
                sq_unique(self.send_queue@),
                forall|i: int|
                    0 <= i < self.send_queue@.len() ==> !contains_id(
                        self.active_sends@,
                        (#[trigger] self.send_queue@[i]).id@,
                    ),
                ({
                    let cur = promote_sends_spec(self.active_sends@, limn, self.send_queue@);
                    &&& out.active == cur.active
                    &&& out.queue == cur.queue
                    &&& out.events == events@ + cur.events
                    &&& out.actions == actions@ + cur.actions
                }),
            decreases self.send_queue@.len(),
        {
            let ghost pre_a = self.active_sends@;
            let ghost pre_q = self.send_queue@;
            let ghost cur = promote_sends_spec(pre_a, limn, pre_q);
            let item = self.send_queue.remove(0);
            proof {
                assert(self.send_queue@ =~= pre_q.drop_first());
                assert(item == pre_q[0]);
            }
            let qid = item.id.clone();
            self.active_sends.push(qid);
            let ghost acts0 = actions@;
            actions.push(
                Action::StartSend {
                    id: item.id,
                    paths: item.paths,
                    follow_symlinks: item.follow_symlinks,
                },
            );
            proof {
                assert(self.active_sends@ == pre_a.push(pre_q[0].id));
                assert(actions@ =~= acts0 + seq![
                    Action::StartSend {
                        id: pre_q[0].id,
                        paths: pre_q[0].paths,
                        follow_symlinks: pre_q[0].follow_symlinks,
                    },
                ]);
                assert(!contains_id(pre_a, pre_q[0].id@));
                assert(forall|k: int|
                    0 <= k < self.send_queue@.len() ==> self.send_queue@[k] == pre_q[k + 1]);
                assert forall|i: int, j: int|
                    0 <= i < j < self.active_sends@.len() implies (
                #[trigger] self.active_sends@[i])@ != (#[trigger] self.active_sends@[j])@ by {
                    if j == pre_a.len() {
                        assert(self.active_sends@[j]@ == pre_a[i]@ ==> contains_id(
                            pre_a,
                            self.active_sends@[j]@,
                        ));
                    }
                }
                assert forall|i: int|
                    0 <= i < self.send_queue@.len() implies !contains_id(
                    self.active_sends@,
                    (#[trigger] self.send_queue@[i]).id@,
                ) by {
                    assert(self.send_queue@[i] == pre_q[i + 1]);
                    assert(pre_q[i + 1].id@ != pre_q[0].id@);
                    if contains_id(self.active_sends@, self.send_queue@[i].id@) {
                        let w = choose|w: int|
                            0 <= w < self.active_sends@.len() && (
                            #[trigger] self.active_sends@[w])@ == self.send_queue@[i].id@;
                        if w < pre_a.len() {
                            assert(contains_id(pre_a, pre_q[i + 1].id@));
                        }
                    }
                }
            }
            let ghost rest = self.send_queue@;
            let ghost evs0 = events@;
            let mut j: usize = 0;
            proof {
                assert(events@ =~= evs0 + queued_send_events(rest).take(0));
            }
            while j < self.send_queue.len()
                invariant
                    0 <= j <= self.send_queue@.len(),
                    self.send_queue@ == rest,
                    events@ == evs0 + queued_send_events(rest).take(j as int),
                decreases self.send_queue@.len() - j,
            {
                let ghost evs_pre = events@;
                let qid2 = self.send_queue[j].id.clone();
                let position: usize = j + 1;
                events.push(TransferProgress::Queued { id: qid2, position });
                proof {
                    assert(queued_send_events(rest)[j as int] == TransferProgress::Queued {
                        id: rest[j as int].id,
                        position: (j + 1) as usize,
                    });
                    assert(events@ =~= evs0 + queued_send_events(rest).take(j as int + 1));
                }
                j = j + 1;
            }
            proof {
                assert(queued_send_events(rest).take(rest.len() as int) =~= queued_send_events(
                    rest,
                ));
                assert(events@ =~= evs0 + queued_send_events(rest));
                let nxt = promote_sends_spec(self.active_sends@, limn, self.send_queue@);
                assert(cur.active == nxt.active);
                assert(cur.queue == nxt.queue);
                assert(cur.events =~= queued_send_events(rest) + nxt.events);
                assert(cur.actions =~= seq![
                    Action::StartSend {
                        id: pre_q[0].id,
                        paths: pre_q[0].paths,
                        follow_symlinks: pre_q[0].follow_symlinks,
                    },
                ] + nxt.actions);
                assert(out.events =~= events@ + nxt.events);
                assert(out.actions =~= actions@ + nxt.actions);
            }
        }
        proof {
            let cur = promote_sends_spec(self.active_sends@, limn, self.send_queue@);
            assert(cur.active == self.active_sends@);
            assert(cur.queue == self.send_queue@);
            assert(events@ + cur.events =~= events@);
            assert(actions@ + cur.actions =~= actions@);
        }
        (events, actions)
    }

    /// Starts queued receives while a receive slot is free, registering a
    /// conflict resolver for each. After the pass the receive queue is
    /// empty or every receive slot is taken.
    pub fn promote_receives(&mut self) -> (r: (Vec<TransferProgress>, Vec<Action>))
        requires
            old(self).model().wf(),
        ensures
            final(self).model().wf(),
            ({
                let out = promote_receives_spec(
                    old(self).active_receives@,
                    old(self).resolvers@,
                    old(self).limits.max_concurrent_receives as nat,
                    old(self).receive_queue@,
                );
                &&& final(self).active_receives@ == out.active
                &&& final(self).resolvers@ == out.resolvers
                &&& final(self).receive_queue@ == out.queue
                &&& r.0@ == out.events
                &&& r.1@ == out.actions
            }),
            final(self).active_sends@ == old(self).active_sends@,
            final(self).send_queue@ == old(self).send_queue@,
            final(self).limits == old(self).limits,
            final(self).receive_queue@.len() == 0 || final(self).active_receives@.len()
                == final(self).limits.max_concurrent_receives,
    {
        let ghost a0 = self.active_receives@;
        let ghost r0 = self.resolvers@;
        let ghost q0 = self.receive_queue@;
        let ghost lim0 = self.limits;
        let ghost limn = self.limits.max_concurrent_receives as nat;
        let ghost out = promote_receives_spec(a0, r0, limn, q0);
        let ghost sends0 = self.active_sends@;
        let ghost sq0 = self.send_queue@;
        let mut events: Vec<TransferProgress> = Vec::new();
        let mut actions: Vec<Action> = Vec::new();
        proof {
            assert(events@ + out.events =~= out.events);
            assert(actions@ + out.actions =~= out.actions);
        }
        while self.active_receives.len() < self.limits.max_concurrent_receives
            && self.receive_queue.len() > 0
            invariant
                self.limits == lim0,
                limn == lim0.max_concurrent_receives as nat,
                self.active_sends@ == sends0,
                self.send_queue@ == sq0,
                self.active_receives@.len() <= lim0.max_concurrent_receives,
                unique_ids(self.active_receives@),
                unique_ids(self.resolvers@),
                rq_unique(self.receive_queue@),
                forall|i: int|
                    0 <= i < self.receive_queue@.len() ==> !contains_id(
                        self.active_receives@,
                        (#[trigger] self.receive_queue@[i]).id@,
                    ),
                forall|i: int|
                    0 <= i < self.resolvers@.len() ==> contains_id(
                        self.active_receives@,
                        (#[trigger] self.resolvers@[i])@,
                    ),
                ({
                    let cur = promote_receives_spec(
                        self.active_receives@,
                        self.resolvers@,
                        limn,
                        self.receive_queue@,
                    );
                    &&& out.active == cur.active
                    &&& out.resolvers == cur.resolvers
                    &&& out.queue == cur.queue
                    &&& out.events == events@ + cur.events
                    &&& out.actions == actions@ + cur.actions
                }),
            decreases self.receive_queue@.len(),
        {
            let ghost pre_a = self.active_receives@;
            let ghost pre_r = self.resolvers@;
            let ghost pre_q = self.receive_queue@;
            let ghost cur = promote_receives_spec(pre_a, pre_r, limn, pre_q);
            let item = self.receive_queue.remove(0);
            proof {
                assert(self.receive_queue@ =~= pre_q.drop_first());
                assert(item == pre_q[0]);
            }
            let qid = item.id.clone();
            self.active_receives.push(qid);
            let qid_r = item.id.clone();
            self.resolvers.push(qid_r);
            let ghost acts0 = actions@;
            actions.push(
                Action::StartReceive {
                    id: item.id,
                    ticket: item.ticket,
                    output_dir: item.output_dir,
                },
            );
            proof {
                assert(self.active_receives@ == pre_a.push(pre_q[0].id));
                assert(self.resolvers@ == pre_r.push(pre_q[0].id));
                assert(actions@ =~= acts0 + seq![
                    Action::StartReceive {
                        id: pre_q[0].id,
                        ticket: pre_q[0].ticket,
                        output_dir: pre_q[0].output_dir,
                    },
                ]);
                assert(!contains_id(pre_a, pre_q[0].id@));
                assert(!contains_id(pre_r, pre_q[0].id@)) by {
                    if contains_id(pre_r, pre_q[0].id@) {
                        let w = choose|w: int|
                            0 <= w < pre_r.len() && (#[trigger] pre_r[w])@ == pre_q[0].id@;
                        assert(contains_id(pre_a, pre_r[w]@));
                    }
                }
                assert(forall|k: int|
                    0 <= k < self.receive_queue@.len() ==> self.receive_queue@[k] == pre_q[k + 1]);
                assert forall|i: int, j: int|
                    0 <= i < j < self.active_receives@.len() implies (
                #[trigger] self.active_receives@[i])@ != (#[trigger] self.active_receives@[j])@
                    by {
                    if j == pre_a.len() {
                        assert(self.active_receives@[j]@ == pre_a[i]@ ==> contains_id(
                            pre_a,
                            self.active_receives@[j]@,
                        ));
                    }
                }
                assert forall|i: int, j: int|
                    0 <= i < j < self.resolvers@.len() implies (#[trigger] self.resolvers@[i])@
                    != (#[trigger] self.resolvers@[j])@ by {
                    if j == pre_r.len() {
                        assert(self.resolvers@[j]@ == pre_r[i]@ ==> contains_id(
                            pre_r,
                            self.resolvers@[j]@,
                        ));
                    }
                }
                assert forall|i: int|
                    0 <= i < self.resolvers@.len() implies contains_id(
                    self.active_receives@,
                    (#[trigger] self.resolvers@[i])@,
                ) by {
                    if i < pre_r.len() {
                        let w = choose|w: int|
                            0 <= w < pre_a.len() && (#[trigger] pre_a[w])@ == pre_r[i]@;
                        assert(self.active_receives@[w]@ == pre_r[i]@);
                    } else {
                        assert(self.active_receives@[pre_a.len() as int]@ == self.resolvers@[i]@);
                    }
                }
                assert forall|i: int|
                    0 <= i < self.receive_queue@.len() implies !contains_id(
                    self.active_receives@,
                    (#[trigger] self.receive_queue@[i]).id@,
                ) by {
                    assert(self.receive_queue@[i] == pre_q[i + 1]);
                    assert(pre_q[i + 1].id@ != pre_q[0].id@);
                    if contains_id(self.active_receives@, self.receive_queue@[i].id@) {
                        let w = choose|w: int|
                            0 <= w < self.active_receives@.len() && (
                            #[trigger] self.active_receives@[w])@ == self.receive_queue@[i].id@;
                        if w < pre_a.len() {
                            assert(contains_id(pre_a, pre_q[i + 1].id@));
                        }
                    }
                }
            }
            let ghost rest = self.receive_queue@;
            let ghost evs0 = events@;
            let mut j: usize = 0;
            proof {
                assert(events@ =~= evs0 + queued_receive_events(rest).take(0));
            }
            while j < self.receive_queue.len()
                invariant
                    0 <= j <= self.receive_queue@.len(),
                    self.receive_queue@ == rest,
                    events@ == evs0 + queued_receive_events(rest).take(j as int),
                decreases self.receive_queue@.len() - j,
            {
                let qid2 = self.receive_queue[j].id.clone();
                let position: usize = j + 1;
                events.push(TransferProgress::Queued { id: qid2, position });
                proof {
                    assert(queued_receive_events(rest)[j as int] == TransferProgress::Queued {
                        id: rest[j as int].id,
                        position: (j + 1) as usize,
                    });
                    assert(events@ =~= evs0 + queued_receive_events(rest).take(j as int + 1));
                }
                j = j + 1;
            }
            proof {
                assert(queued_receive_events(rest).take(rest.len() as int)
                    =~= queued_receive_events(rest));
                assert(events@ =~= evs0 + queued_receive_events(rest));
                let nxt = promote_receives_spec(
                    self.active_receives@,
                    self.resolvers@,
                    limn,
                    self.receive_queue@,
                );
                assert(cur.active == nxt.active);
                assert(cur.resolvers == nxt.resolvers);
                assert(cur.queue == nxt.queue);
                assert(cur.events =~= queued_receive_events(rest) + nxt.events);
                assert(cur.actions =~= seq![
                    Action::StartReceive {
                        id: pre_q[0].id,
                        ticket: pre_q[0].ticket,
                        output_dir: pre_q[0].output_dir,
                    },
                ] + nxt.actions);
                assert(out.events =~= events@ + nxt.events);
                assert(out.actions =~= actions@ + nxt.actions);
            }
        }
        proof {
            let cur = promote_receives_spec(
                self.active_receives@,
                self.resolvers@,
                limn,
                self.receive_queue@,
            );
            assert(cur.active == self.active_receives@);
            assert(cur.queue == self.receive_queue@);
            assert(events@ + cur.events =~= events@);
            assert(actions@ + cur.actions =~= actions@);
        }
        (events, actions)
    }
}


/// A send with no paths is rejected before any event: the command leaves
/// the state unchanged and emits and starts nothing.
pub proof fn lemma_empty_send_rejected(m: OrchModel, cmd: TransferCommand)
    requires
        cmd matches TransferCommand::Send { paths, .. } && paths@.len() == 0,
    ensures
        handle_spec(m, cmd) == (m, Seq::<TransferProgress>::empty(), Seq::<Action>::empty()),
{
}

/// Cancelling a queued transfer emits exactly one event — the terminal
/// `Cancelled` for that id — and starts or cancels no task.
pub proof fn lemma_cancel_queued_exactly_cancelled(m: OrchModel, cmd: TransferCommand)
    requires
        cmd matches TransferCommand::Cancel { id } && (sq_contains(m.send_queue, id@)
            || rq_contains(m.receive_queue, id@)),
    ensures
        ({
            let (m2, events, actions) = handle_spec(m, cmd);
            &&& events.len() == 1
            &&& events[0]@ == (EventModel::Cancelled {
                id: (match cmd {
                    TransferCommand::Cancel { id } => id@,
                    _ => Seq::<char>::empty(),
                }),
            })
            &&& events[0]@.is_terminal()
            &&& events[0]@.id() == (match cmd {
                TransferCommand::Cancel { id } => id@,
                _ => Seq::<char>::empty(),
            })
            &&& actions.len() == 0
            &&& m2.active_sends == m.active_sends
            &&& m2.active_receives == m.active_receives
        }),
{
}

/// Every reposition event reports a queued transfer's 1-based index in its
/// queue at the time of emission.
pub proof fn lemma_queued_positions(q: Seq<QueuedSend>)
    ensures
        queued_send_events(q).len() == q.len(),
        forall|i: int|
            0 <= i < q.len() ==> (#[trigger] queued_send_events(q)[i])@ == (EventModel::Queued {
                id: q[i].id@,
                position: (i + 1) as usize,
            }),
{
}


} // verus!

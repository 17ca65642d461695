//! Properties of the transfer protocol, stated over the session's model and
//! the workspace model, and proved.

use vstd::prelude::*;
use crate::protocol::{ActionView, CloseKind, EventView, MessageView};
use crate::session::{
    HEARTBEAT_TICK_MS, PendingView, SessionView, TIMEOUT_MS, closed_from, with_pending, initial, next, on_binary, timed_out,
};
use crate::workspace::{
    Files, announcements, apply, apply_all, chunk_events, concat_all, entries, files_of,
    finishes_last, lemma_announce, lemma_apply_all_concat, lemma_files, lemma_opens,
    lemma_run_concat, lemma_writes, opens, run, writes, binary_events, appends, lemma_one_file,
    lemma_appends, link,
};

verus! {

/// Whether `e` announces a file named `f`.
pub open spec fn announces(e: EventView, f: Seq<char>) -> bool {
    match e {
        EventView::Text(Some(MessageView::File { file, size })) => file == f,
        _ => false,
    }
}

/// Whether some event of `evs` announces a file named `f`.
pub open spec fn announced(evs: Seq<EventView>, f: Seq<char>) -> bool {
    exists|j: int| 0 <= j < evs.len() && announces(#[trigger] evs[j], f)
}

/// Whether some action of `acts` opens a file named `f`.
pub open spec fn opened(acts: Seq<ActionView>, f: Seq<char>) -> bool {
    exists|k: int| 0 <= k < acts.len() && #[trigger] acts[k] == ActionView::OpenFile { file: f }
}

/// Ordered writes: a fresh session that is told of files with distinct names,
/// then receives each file's chunks in announcement order (each file's chunks
/// adding up to its size, the last chunk completing it), opens every file,
/// appends each chunk to its own file, and sends one completion message right
/// after each file's last chunk. Whatever the workspace held before, it then
/// holds exactly those files, each equal to its chunks laid end to end, and
/// the session stays open with nothing pending.
pub proof fn lemma_ordered_writes(
    id: Seq<char>,
    names: Seq<Seq<char>>,
    sizes: Seq<u64>,
    chunks: Seq<Seq<Seq<u8>>>,
    w: Option<Files>,
)
    requires
        names.len() == sizes.len(),
        names.len() == chunks.len(),
        forall|i: int, j: int| 0 <= i < j < names.len() ==> names[i] != names[j],
        forall|i: int| 0 <= i < names.len() ==> finishes_last(0, #[trigger] chunks[i], sizes[i] as int),
    ensures
        ({
            let r = run(initial(id), announcements(names, sizes) + chunk_events(chunks));
            let disk = files_of(apply_all(w, seq![ActionView::ResetWorkspace] + r.1));
            &&& r.1 == opens(names) + writes(names, chunks, id)
            &&& !r.0.closed
            &&& r.0.pending.len() == 0
            &&& forall|f: Seq<char>| disk.contains_key(f) <==> names.contains(f)
            &&& forall|i: int| 0 <= i < names.len() ==> disk[#[trigger] names[i]] == concat_all(chunks[i])
        }),
{
    let s0 = initial(id);
    let a = announcements(names, sizes);
    let c = chunk_events(chunks);
    lemma_announce(s0, names, sizes);
    assert(s0.pending + entries(names, sizes) =~= entries(names, sizes));
    let s1 = run(s0, a).0;
    lemma_files(s1, names, sizes, chunks);
    lemma_run_concat(s0, a, c);
    let acts = run(s0, a + c).1;
    let reset = seq![ActionView::ResetWorkspace];
    lemma_apply_all_concat(w, reset, acts);
    assert(reset.drop_last() =~= Seq::<ActionView>::empty());
    assert(reset.last() == ActionView::ResetWorkspace);
    assert(apply_all(w, reset) == apply(apply_all(w, Seq::<ActionView>::empty()), ActionView::ResetWorkspace));
    assert(apply_all(w, reset) == None::<Files>);
    lemma_apply_all_concat(None, opens(names), writes(names, chunks, id));
    lemma_opens(names);
    let w1 = apply_all(None, opens(names));
    assert forall|i: int| 0 <= i < names.len() implies files_of(w1).contains_key(#[trigger] names[i]) by {
        assert(names.contains(names[i]));
    }
    lemma_writes(w1, names, chunks, id);
    assert forall|i: int| 0 <= i < names.len() implies files_of(
        apply_all(w1, writes(names, chunks, id)),
    )[#[trigger] names[i]] == concat_all(chunks[i]) by {
        assert(names.contains(names[i]));
        assert(files_of(w1)[names[i]] + concat_all(chunks[i]) =~= concat_all(chunks[i]));
    }
}

/// Each file announced and then sent in full before the next one.
pub open spec fn one_by_one(names: Seq<Seq<char>>, sizes: Seq<u64>, chunks: Seq<Seq<Seq<u8>>>) -> Seq<
    EventView,
>
    decreases names.len(),
{
    if names.len() == 0 || sizes.len() == 0 || chunks.len() == 0 {
        Seq::empty()
    } else {
        seq![EventView::Text(Some(MessageView::File { file: names[0], size: sizes[0] }))]
            + binary_events(chunks[0]) + one_by_one(
            names.drop_first(),
            sizes.drop_first(),
            chunks.drop_first(),
        )
    }
}

/// For each file in turn: open it, its appends, then one completion message.
pub open spec fn open_and_write(names: Seq<Seq<char>>, chunks: Seq<Seq<Seq<u8>>>, id: Seq<char>) -> Seq<
    ActionView,
>
    decreases names.len(),
{
    if names.len() == 0 || chunks.len() == 0 {
        Seq::empty()
    } else {
        seq![ActionView::OpenFile { file: names[0] }] + appends(names[0], chunks[0]) + seq![link(id)]
            + open_and_write(names.drop_first(), chunks.drop_first(), id)
    }
}

proof fn lemma_one_by_one_run(
    s: SessionView,
    names: Seq<Seq<char>>,
    sizes: Seq<u64>,
    chunks: Seq<Seq<Seq<u8>>>,
)
    requires
        !s.closed,
        s.pending.len() == 0,
        names.len() == sizes.len(),
        names.len() == chunks.len(),
        forall|i: int| 0 <= i < names.len() ==> finishes_last(0, #[trigger] chunks[i], sizes[i] as int),
    ensures
        run(s, one_by_one(names, sizes, chunks)) == (s, open_and_write(names, chunks, s.id)),
    decreases names.len(),
{
    if names.len() == 0 {
        assert(one_by_one(names, sizes, chunks) =~= Seq::<EventView>::empty());
    } else {
        let e0 = EventView::Text(Some(MessageView::File { file: names[0], size: sizes[0] }));
        let n1 = names.drop_first();
        let z1 = sizes.drop_first();
        let c1 = chunks.drop_first();
        let head = seq![e0] + binary_events(chunks[0]);
        assert(one_by_one(names, sizes, chunks) == head + one_by_one(n1, z1, c1));
        lemma_run_concat(s, head, one_by_one(n1, z1, c1));
        lemma_run_concat(s, seq![e0], binary_events(chunks[0]));
        lemma_announce(s, seq![names[0]], seq![sizes[0]]);
        assert(announcements(seq![names[0]], seq![sizes[0]]) =~= seq![e0]);
        let s1 = run(s, seq![e0]).0;
        assert(s1.pending =~= seq![PendingView { file: names[0], size: sizes[0], written: 0 }]
            + Seq::<PendingView>::empty());
        assert(finishes_last(0, chunks[0], sizes[0] as int));
        lemma_one_file(s1, names[0], sizes[0], 0, Seq::empty(), chunks[0]);
        assert(opens(seq![names[0]]) =~= seq![ActionView::OpenFile { file: names[0] }]);
        let s2 = run(s, head).0;
        assert(s2 == with_pending(s1, Seq::empty()));
        assert(s.pending =~= Seq::<PendingView>::empty());
        assert(s2 == s);
        assert forall|i: int| 0 <= i < n1.len() implies finishes_last(
            0,
            #[trigger] c1[i],
            z1[i] as int,
        ) by {
            assert(c1[i] == chunks[i + 1]);
        }
        lemma_one_by_one_run(s, n1, z1, c1);
        assert(run(s, one_by_one(names, sizes, chunks)).1 =~= open_and_write(names, chunks, s.id));
    }
}

proof fn lemma_open_and_write_disk(
    w: Option<Files>,
    names: Seq<Seq<char>>,
    chunks: Seq<Seq<Seq<u8>>>,
    id: Seq<char>,
)
    requires
        names.len() == chunks.len(),
        forall|i: int, j: int| 0 <= i < j < names.len() ==> names[i] != names[j],
        forall|i: int| 0 <= i < names.len() ==> !files_of(w).contains_key(#[trigger] names[i]),
    ensures
        ({
            let r = files_of(apply_all(w, open_and_write(names, chunks, id)));
            &&& forall|f: Seq<char>| #[trigger] r.contains_key(f) <==> (files_of(w).contains_key(f)
                || names.contains(f))
            &&& forall|f: Seq<char>| #[trigger] files_of(w).contains_key(f) ==> r[f] == files_of(w)[f]
            &&& forall|i: int| 0 <= i < names.len() ==> r[#[trigger] names[i]] == concat_all(chunks[i])
        }),
    decreases names.len(),
{
    if names.len() == 0 {
        assert(open_and_write(names, chunks, id) =~= Seq::<ActionView>::empty());
    } else {
        let f0 = names[0];
        let n1 = names.drop_first();
        let c1 = chunks.drop_first();
        let op = seq![ActionView::OpenFile { file: f0 }];
        let ap = appends(f0, chunks[0]);
        let lk = seq![link(id)];
        let rest = open_and_write(n1, c1, id);
        assert(open_and_write(names, chunks, id) == op + ap + lk + rest);
        lemma_apply_all_concat(w, op + ap + lk, rest);
        lemma_apply_all_concat(w, op + ap, lk);
        lemma_apply_all_concat(w, op, ap);
        assert(op.drop_last() =~= Seq::<ActionView>::empty());
        assert(op.last() == ActionView::OpenFile { file: f0 });
        let m0 = files_of(w).insert(f0, Seq::empty());
        assert(!files_of(w).contains_key(names[0]));
        assert(apply_all(w, Seq::<ActionView>::empty()) == w);
        assert(apply_all(w, op) == Some(m0));
        lemma_appends(m0, f0, chunks[0]);
        let m1 = m0.insert(f0, concat_all(chunks[0]));
        assert(Seq::<u8>::empty() + concat_all(chunks[0]) =~= concat_all(chunks[0]));
        assert(lk.drop_last() =~= Seq::<ActionView>::empty());
        assert(lk.last() == link(id));
        assert(apply_all(Some(m1), Seq::<ActionView>::empty()) == Some(m1));
        assert forall|i: int, j: int| 0 <= i < j < n1.len() implies n1[i] != n1[j] by {
            assert(n1[i] == names[i + 1] && n1[j] == names[j + 1]);
        }
        assert forall|i: int| 0 <= i < n1.len() implies !files_of(Some(m1)).contains_key(
            #[trigger] n1[i],
        ) by {
            assert(n1[i] == names[i + 1]);
            assert(names[i + 1] != names[0]);
        }
        lemma_open_and_write_disk(Some(m1), n1, c1, id);
        let r = files_of(apply_all(w, open_and_write(names, chunks, id)));
        assert forall|f: Seq<char>| r.contains_key(f) <==> (files_of(w).contains_key(f)
            || names.contains(f)) by {
            assert(names.contains(f) <==> (f == f0 || n1.contains(f))) by {
                if names.contains(f) && f != f0 {
                    let k = choose|k: int| 0 <= k < names.len() && names[k] == f;
                    assert(n1[k - 1] == f);
                }
                if n1.contains(f) {
                    let k = choose|k: int| 0 <= k < n1.len() && n1[k] == f;
                    assert(names[k + 1] == f);
                }
                if f == f0 {
                    assert(names[0] == f);
                }
            }
            assert(files_of(Some(m1)).contains_key(f) <==> (files_of(w).contains_key(f) || f == f0));
        }
        assert forall|i: int| 0 <= i < names.len() implies r[#[trigger] names[i]] == concat_all(
            chunks[i],
        ) by {
            if i > 0 {
                assert(n1[i - 1] == names[i]);
                assert(c1[i - 1] == chunks[i]);
            } else {
                assert(files_of(Some(m1)).contains_key(f0));
            }
        }
        assert forall|f: Seq<char>| #[trigger] files_of(w).contains_key(f) implies r[f] == files_of(
            w,
        )[f] by {
            assert(f != f0);
            assert(files_of(Some(m1)).contains_key(f));
            assert(m1[f] == files_of(w)[f]);
        }
    }
}

/// Ordered writes, one file at a time: a fresh session whose peer announces
/// each file (distinct names) and then sends its chunks, the last chunk
/// completing it, before going on to the next, opens each file, appends each
/// chunk to it, and sends one completion message right after each file's last
/// chunk. Whatever the workspace held before, it then holds exactly those
/// files, each equal to its chunks laid end to end.
pub proof fn lemma_ordered_writes_one_by_one(
    id: Seq<char>,
    names: Seq<Seq<char>>,
    sizes: Seq<u64>,
    chunks: Seq<Seq<Seq<u8>>>,
    w: Option<Files>,
)
    requires
        names.len() == sizes.len(),
        names.len() == chunks.len(),
        forall|i: int, j: int| 0 <= i < j < names.len() ==> names[i] != names[j],
        forall|i: int| 0 <= i < names.len() ==> finishes_last(0, #[trigger] chunks[i], sizes[i] as int),
    ensures
        ({
            let r = run(initial(id), one_by_one(names, sizes, chunks));
            let disk = files_of(apply_all(w, seq![ActionView::ResetWorkspace] + r.1));
            &&& r.1 == open_and_write(names, chunks, id)
            &&& r.0 == initial(id)
            &&& forall|f: Seq<char>| disk.contains_key(f) <==> names.contains(f)
            &&& forall|i: int| 0 <= i < names.len() ==> disk[#[trigger] names[i]] == concat_all(chunks[i])
        }),
{
    lemma_one_by_one_run(initial(id), names, sizes, chunks);
    let reset = seq![ActionView::ResetWorkspace];
    let acts = open_and_write(names, chunks, id);
    lemma_apply_all_concat(w, reset, acts);
    assert(reset.drop_last() =~= Seq::<ActionView>::empty());
    assert(reset.last() == ActionView::ResetWorkspace);
    assert(apply_all(w, reset) == apply(apply_all(w, Seq::<ActionView>::empty()), ActionView::ResetWorkspace));
    lemma_open_and_write_disk(None, names, chunks, id);
}

/// Queue head: while two or more files are pending, a binary chunk that fits
/// in the first-announced file is appended to that file and to no other; the
/// files behind it keep their place and their progress.
pub proof fn lemma_chunk_goes_to_head(s: SessionView, b: Seq<u8>)
    requires
        !s.closed,
        s.pending.len() >= 2,
        b.len() <= s.pending[0].size - s.pending[0].written,
    ensures
        ({
            let r = next(s, EventView::Binary(b));
            let head = s.pending[0];
            &&& !r.0.closed
            &&& r.1[0] == ActionView::Append { file: head.file, bytes: b }
            &&& forall|k: int| 0 < k < r.1.len() ==> !(#[trigger] r.1[k] is Append)
            &&& if head.written + b.len() == head.size {
                &&& r.0.pending == s.pending.drop_first()
                &&& r.1 == seq![r.1[0], ActionView::SendText(MessageView::Link { link: s.id })]
            } else {
                &&& r.0.pending.len() == s.pending.len()
                &&& r.0.pending[0].file == head.file
                &&& r.0.pending[0].written == head.written + b.len()
                &&& forall|i: int| 1 <= i < s.pending.len() ==> #[trigger] r.0.pending[i] == s.pending[i]
                &&& r.1.len() == 1
            }
        }),
{
    assert(next(s, EventView::Binary(b)) == on_binary(s, b));
}

/// Liveness: a tick more than the timeout after the last ping or pong closes
/// the session without a reason and asks for nothing else; an earlier tick
/// only probes the peer. A failed probe closes the session the same way.
pub proof fn lemma_liveness(s: SessionView, now: u64)
    requires
        !s.closed,
    ensures
        timed_out(s.last_heartbeat, now) ==> next(s, EventView::Tick { now }) == (
            closed_from(s),
            seq![ActionView::Close(CloseKind::Abrupt)],
        ),
        !timed_out(s.last_heartbeat, now) ==> next(s, EventView::Tick { now }) == (
            s,
            seq![ActionView::SendPing],
        ),
        next(s, EventView::ProbeFailed) == (closed_from(s), seq![ActionView::Close(CloseKind::Abrupt)]),
{
}

/// Six missed heartbeat periods after the last sign of life, and one
/// millisecond more, exceed the timeout.
pub proof fn lemma_missed_ticks(last: u64, now: u64)
    requires
        now as int > last as int + 6 * HEARTBEAT_TICK_MS,
    ensures
        timed_out(last, now),
{
}

/// Whether `e` is a sign of life from the peer.
pub open spec fn is_heartbeat(e: EventView) -> bool {
    e is Ping || e is Pong
}

proof fn lemma_heartbeat_kept(s: SessionView, evs: Seq<EventView>)
    requires
        forall|i: int| 0 <= i < evs.len() ==> !is_heartbeat(#[trigger] evs[i]),
    ensures
        run(s, evs).0.last_heartbeat == s.last_heartbeat,
    decreases evs.len(),
{
    if evs.len() > 0 {
        let e1 = evs.drop_last();
        assert forall|i: int| 0 <= i < e1.len() implies !is_heartbeat(#[trigger] e1[i]) by {
            assert(e1[i] == evs[i]);
        }
        lemma_heartbeat_kept(s, e1);
        assert(evs[evs.len() - 1] == evs.last());
        let p = run(s, e1).0;
        if !p.closed {
            if let EventView::Binary(b) = evs.last() {
                assert(next(p, evs.last()) == on_binary(p, b));
            }
        }
    }
}

/// Silent peer: whatever else arrives, if no ping or pong does, the first
/// tick more than the timeout after the last sign of life leaves the session
/// closed.
pub proof fn lemma_silent_peer_is_dropped(s: SessionView, evs: Seq<EventView>, now: u64)
    requires
        forall|i: int| 0 <= i < evs.len() ==> !is_heartbeat(#[trigger] evs[i]),
        timed_out(s.last_heartbeat, now),
    ensures
        run(s, evs.push(EventView::Tick { now })).0.closed,
{
    lemma_heartbeat_kept(s, evs);
    assert(evs.push(EventView::Tick { now }).drop_last() =~= evs);
}

/// The time of the `k`-th tick of a timer that fires every heartbeat period
/// from the session's start.
pub open spec fn tick_time(k: int) -> int {
    k * HEARTBEAT_TICK_MS
}

/// The index of the first tick that finds a last sign of life at `last`
/// out of date.
pub open spec fn first_late_tick(last: u64) -> int {
    last / HEARTBEAT_TICK_MS + 7
}

/// Deadline: on the heartbeat timer, the tick `first_late_tick(last)` is the
/// first that comes more than the timeout after a last sign of life at
/// `last`, and it comes at most one heartbeat period after the timeout ran out.
pub proof fn lemma_first_late_tick(last: u64)
    requires
        last + TIMEOUT_MS + HEARTBEAT_TICK_MS <= u64::MAX,
    ensures
        timed_out(last, tick_time(first_late_tick(last)) as u64),
        tick_time(first_late_tick(last)) <= last + TIMEOUT_MS + HEARTBEAT_TICK_MS,
        forall|k: int|
            0 <= k < first_late_tick(last) ==> !timed_out(last, #[trigger] tick_time(k) as u64),
{
    let q = last / HEARTBEAT_TICK_MS;
    assert(q * 5000 <= last < q * 5000 + 5000);
    assert forall|k: int| 0 <= k < first_late_tick(last) implies !timed_out(
        last,
        #[trigger] tick_time(k) as u64,
    ) by {
        assert(k * 5000 <= (q + 6) * 5000) by (nonlinear_arith)
            requires
                0 <= k <= q + 6,
        ;
    }
}

/// A closed session stays closed and asks for nothing, whatever arrives.
pub proof fn lemma_closed_is_silent(s: SessionView, evs: Seq<EventView>)
    requires
        s.closed,
    ensures
        run(s, evs) == (s, Seq::<ActionView>::empty()),
    decreases evs.len(),
{
    if evs.len() > 0 {
        lemma_closed_is_silent(s, evs.drop_last());
        assert(Seq::<ActionView>::empty() + Seq::<ActionView>::empty() =~= Seq::<ActionView>::empty());
    }
}

proof fn lemma_files_after_reset(w: Option<Files>, acts: Seq<ActionView>, f: Seq<char>)
    requires
        files_of(apply_all(w, seq![ActionView::ResetWorkspace] + acts)).contains_key(f),
    ensures
        opened(acts, f),
    decreases acts.len(),
{
    let all = seq![ActionView::ResetWorkspace] + acts;
    if acts.len() == 0 {
        assert(all.drop_last() =~= Seq::<ActionView>::empty());
        assert(all.last() == ActionView::ResetWorkspace);
    } else {
        assert(all.drop_last() =~= seq![ActionView::ResetWorkspace] + acts.drop_last());
        assert(all.last() == acts.last());
        let before = apply_all(w, all.drop_last());
        let k = acts.len() - 1;
        assert(acts[k] == acts.last());
        if acts.last() == (ActionView::OpenFile { file: f }) {
        } else {
            assert(files_of(before).contains_key(f));
            lemma_files_after_reset(w, acts.drop_last(), f);
            let j = choose|j: int|
                0 <= j < acts.drop_last().len() && #[trigger] acts.drop_last()[j]
                    == ActionView::OpenFile { file: f };
            assert(acts[j] == acts.drop_last()[j]);
        }
    }
}

proof fn lemma_opened_announced(s: SessionView, evs: Seq<EventView>, f: Seq<char>)
    requires
        opened(run(s, evs).1, f),
    ensures
        announced(evs, f),
    decreases evs.len(),
{
    if evs.len() > 0 {
        let e1 = evs.drop_last();
        let p = run(s, e1);
        let q = next(p.0, evs.last());
        let k = choose|k: int|
            0 <= k < run(s, evs).1.len() && #[trigger] run(s, evs).1[k] == ActionView::OpenFile { file: f };
        if k < p.1.len() {
            assert((p.1 + q.1)[k] == p.1[k]);
            lemma_opened_announced(s, e1, f);
            let j = choose|j: int| 0 <= j < e1.len() && announces(#[trigger] e1[j], f);
            assert(evs[j] == e1[j]);
        } else {
            assert((p.1 + q.1)[k] == q.1[k - p.1.len()]);
            assert(announces(evs.last(), f));
            assert(evs[evs.len() - 1] == evs.last());
        }
    }
}

/// Fresh workspace: a session clears whatever its workspace held before it
/// started, so after any run of events every file in the workspace is one
/// that the session's own peer announced.
pub proof fn lemma_no_stale_files(id: Seq<char>, evs: Seq<EventView>, w: Option<Files>, f: Seq<char>)
    requires
        files_of(
            apply_all(w, seq![ActionView::ResetWorkspace] + run(initial(id), evs).1),
        ).contains_key(f),
    ensures
        announced(evs, f),
{
    lemma_files_after_reset(w, run(initial(id), evs).1, f);
    lemma_opened_announced(initial(id), evs, f);
}

} // verus!

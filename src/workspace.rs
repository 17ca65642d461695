//! A model of the session's workspace directory and of what the driver's
//! actions do to it, and the laws that relate a run of events to the files
//! it leaves behind.

use vstd::prelude::*;
use crate::protocol::{ActionView, EventView, MessageView};
use crate::session::{PendingView, SessionView, next, on_binary, with_pending};

verus! {

/// File contents by name; the workspace directory, where it exists.
pub type Files = Map<Seq<char>, Seq<u8>>;

/// The files of a workspace; none where the directory does not exist.
pub open spec fn files_of(w: Option<Files>) -> Files {
    match w {
        Some(m) => m,
        None => Map::empty(),
    }
}

/// What one action does to the workspace. Appending to a file that was never
/// opened changes nothing here: the driver reports it as an I/O failure.
pub open spec fn apply(w: Option<Files>, a: ActionView) -> Option<Files> {
    match a {
        ActionView::ResetWorkspace => None,
        ActionView::OpenFile { file } => {
            let m = files_of(w);
            Some(if m.contains_key(file) { m } else { m.insert(file, Seq::empty()) })
        },
        ActionView::Append { file, bytes } => match w {
            Some(m) => if m.contains_key(file) {
                Some(m.insert(file, m[file] + bytes))
            } else {
                w
            },
            None => w,
        },
        _ => w,
    }
}

/// What a list of actions, performed in order, does to the workspace.
pub open spec fn apply_all(w: Option<Files>, acts: Seq<ActionView>) -> Option<Files>
    decreases acts.len(),
{
    if acts.len() == 0 {
        w
    } else {
        apply(apply_all(w, acts.drop_last()), acts.last())
    }
}

/// A session fed `evs` in order: its final state and all actions it asked for.
pub open spec fn run(s: SessionView, evs: Seq<EventView>) -> (SessionView, Seq<ActionView>)
    decreases evs.len(),
{
    if evs.len() == 0 {
        (s, Seq::empty())
    } else {
        let p = run(s, evs.drop_last());
        let q = next(p.0, evs.last());
        (q.0, p.1 + q.1)
    }
}

/// The chunks `cs` laid end to end.
pub open spec fn concat_all(cs: Seq<Seq<u8>>) -> Seq<u8>
    decreases cs.len(),
{
    if cs.len() == 0 {
        Seq::empty()
    } else {
        concat_all(cs.drop_last()) + cs.last()
    }
}

/// Announcements of the files `names`, of sizes `sizes`, in order.
pub open spec fn announcements(names: Seq<Seq<char>>, sizes: Seq<u64>) -> Seq<EventView> {
    Seq::new(
        names.len(),
        |i: int| EventView::Text(Some(MessageView::File { file: names[i], size: sizes[i] })),
    )
}

/// The queue entries those announcements create.
pub open spec fn entries(names: Seq<Seq<char>>, sizes: Seq<u64>) -> Seq<PendingView> {
    Seq::new(names.len(), |i: int| PendingView { file: names[i], size: sizes[i], written: 0 })
}

/// The actions that open the files `names`, in order.
pub open spec fn opens(names: Seq<Seq<char>>) -> Seq<ActionView> {
    names.map_values(|f: Seq<char>| ActionView::OpenFile { file: f })
}

/// One binary frame per chunk.
pub open spec fn binary_events(cs: Seq<Seq<u8>>) -> Seq<EventView> {
    cs.map_values(|c: Seq<u8>| EventView::Binary(c))
}

/// One append to `f` per chunk.
pub open spec fn appends(f: Seq<char>, cs: Seq<Seq<u8>>) -> Seq<ActionView> {
    cs.map_values(|c: Seq<u8>| ActionView::Append { file: f, bytes: c })
}

/// The binary frames of several files, file after file.
pub open spec fn chunk_events(chunks: Seq<Seq<Seq<u8>>>) -> Seq<EventView>
    decreases chunks.len(),
{
    if chunks.len() == 0 {
        Seq::empty()
    } else {
        binary_events(chunks[0]) + chunk_events(chunks.drop_first())
    }
}

/// The completion message of a session named `id`.
pub open spec fn link(id: Seq<char>) -> ActionView {
    ActionView::SendText(MessageView::Link { link: id })
}

/// For each file in turn: its appends, then one completion message.
pub open spec fn writes(names: Seq<Seq<char>>, chunks: Seq<Seq<Seq<u8>>>, id: Seq<char>) -> Seq<
    ActionView,
>
    decreases chunks.len(),
{
    if chunks.len() == 0 || names.len() == 0 {
        Seq::empty()
    } else {
        appends(names[0], chunks[0]) + seq![link(id)] + writes(
            names.drop_first(),
            chunks.drop_first(),
            id,
        )
    }
}

/// Starting from `w` bytes written, the chunks `cs` bring a file to exactly
/// `size` bytes, and only the last of them does.
pub open spec fn finishes_last(w: int, cs: Seq<Seq<u8>>, size: int) -> bool
    decreases cs.len(),
{
    if cs.len() == 0 {
        false
    } else if cs.len() == 1 {
        w + cs[0].len() == size
    } else {
        w + cs[0].len() < size && finishes_last(w + cs[0].len(), cs.drop_first(), size)
    }
}

/// Feeding two lists of events one after the other is feeding their
/// concatenation.
pub proof fn lemma_run_concat(s: SessionView, e1: Seq<EventView>, e2: Seq<EventView>)
    ensures
        run(s, e1 + e2).0 == run(run(s, e1).0, e2).0,
        run(s, e1 + e2).1 == run(s, e1).1 + run(run(s, e1).0, e2).1,
    decreases e2.len(),
{
    if e2.len() == 0 {
        assert(e1 + e2 =~= e1);
        assert(run(s, e1).1 + Seq::<ActionView>::empty() =~= run(s, e1).1);
    } else {
        assert((e1 + e2).drop_last() =~= e1 + e2.drop_last());
        assert((e1 + e2).last() == e2.last());
        lemma_run_concat(s, e1, e2.drop_last());
        let p = run(run(s, e1).0, e2.drop_last());
        let q = next(p.0, e2.last());
        assert(run(s, e1).1 + p.1 + q.1 =~= run(s, e1).1 + (p.1 + q.1));
    }
}

/// Performing two lists of actions one after the other is performing their
/// concatenation.
pub proof fn lemma_apply_all_concat(w: Option<Files>, a: Seq<ActionView>, b: Seq<ActionView>)
    ensures
        apply_all(w, a + b) == apply_all(apply_all(w, a), b),
    decreases b.len(),
{
    if b.len() == 0 {
        assert(a + b =~= a);
    } else {
        assert((a + b).drop_last() =~= a + b.drop_last());
        assert((a + b).last() == b.last());
        lemma_apply_all_concat(w, a, b.drop_last());
    }
}

pub(crate) proof fn lemma_run_one(s: SessionView, e: EventView)
    ensures
        run(s, seq![e]) == next(s, e),
{
    assert(seq![e].drop_last() =~= Seq::<EventView>::empty());
    assert(seq![e].last() == e);
    assert(run(s, Seq::<EventView>::empty()) == (s, Seq::<ActionView>::empty()));
    assert(Seq::<ActionView>::empty() + next(s, e).1 =~= next(s, e).1);
}

pub(crate) proof fn lemma_announce(s: SessionView, names: Seq<Seq<char>>, sizes: Seq<u64>)
    requires
        !s.closed,
        names.len() == sizes.len(),
    ensures
        run(s, announcements(names, sizes)) == (
            with_pending(s, s.pending + entries(names, sizes)),
            opens(names),
        ),
    decreases names.len(),
{
    if names.len() == 0 {
        assert(announcements(names, sizes) =~= Seq::<EventView>::empty());
        assert(s.pending + entries(names, sizes) =~= s.pending);
        assert(opens(names) =~= Seq::<ActionView>::empty());
    } else {
        let n1 = names.drop_last();
        let z1 = sizes.drop_last();
        assert(announcements(names, sizes).drop_last() =~= announcements(n1, z1));
        lemma_announce(s, n1, z1);
        let s1 = with_pending(s, s.pending + entries(n1, z1));
        assert((s.pending + entries(n1, z1)).push(
            PendingView { file: names.last(), size: sizes.last(), written: 0 },
        ) =~= s.pending + entries(names, sizes));
        assert(opens(n1) + seq![ActionView::OpenFile { file: names.last() }] =~= opens(names));
    }
}

pub(crate) proof fn lemma_one_file(
    s: SessionView,
    file: Seq<char>,
    size: u64,
    w: u64,
    rest: Seq<PendingView>,
    cs: Seq<Seq<u8>>,
)
    requires
        !s.closed,
        s.pending == seq![PendingView { file, size, written: w }] + rest,
        finishes_last(w as int, cs, size as int),
    ensures
        run(s, binary_events(cs)) == (
            with_pending(s, rest),
            appends(file, cs) + seq![link(s.id)],
        ),
    decreases cs.len(),
{
    let c = cs[0];
    let e0 = EventView::Binary(c);
    let tail = cs.drop_first();
    assert(binary_events(cs) =~= seq![e0] + binary_events(tail));
    assert(appends(file, cs) =~= seq![ActionView::Append { file, bytes: c }] + appends(file, tail));
    lemma_run_concat(s, seq![e0], binary_events(tail));
    lemma_run_one(s, e0);
    assert(s.pending[0] == PendingView { file, size, written: w });
    if cs.len() == 1 {
        assert(s.pending.drop_first() =~= rest);
        assert(binary_events(tail) =~= Seq::<EventView>::empty());
        assert(appends(file, tail) =~= Seq::<ActionView>::empty());
        assert(next(s, e0) == on_binary(s, c));
        assert(on_binary(s, c).1 =~= seq![ActionView::Append { file, bytes: c }, link(s.id)]);
        assert(on_binary(s, c).1 + Seq::<ActionView>::empty() =~= on_binary(s, c).1);
    } else {
        let w1 = (w + c.len()) as u64;
        let q1 = s.pending.update(0, PendingView { file, size, written: w1 });
        assert(q1 =~= seq![PendingView { file, size, written: w1 }] + rest);
        let s1 = with_pending(s, q1);
        assert(next(s, e0) == (s1, seq![ActionView::Append { file, bytes: c }]));
        lemma_one_file(s1, file, size, w1, rest, tail);
        assert(seq![ActionView::Append { file, bytes: c }] + (appends(file, tail) + seq![link(s.id)])
            =~= appends(file, cs) + seq![link(s.id)]);
    }
}

pub(crate) proof fn lemma_files(
    s: SessionView,
    names: Seq<Seq<char>>,
    sizes: Seq<u64>,
    chunks: Seq<Seq<Seq<u8>>>,
)
    requires
        !s.closed,
        names.len() == sizes.len(),
        names.len() == chunks.len(),
        s.pending == entries(names, sizes),
        forall|i: int| 0 <= i < names.len() ==> finishes_last(0, #[trigger] chunks[i], sizes[i] as int),
    ensures
        run(s, chunk_events(chunks)) == (
            with_pending(s, Seq::empty()),
            writes(names, chunks, s.id),
        ),
    decreases names.len(),
{
    if names.len() == 0 {
        assert(s.pending =~= Seq::<PendingView>::empty());
    } else {
        let n1 = names.drop_first();
        let z1 = sizes.drop_first();
        let c1 = chunks.drop_first();
        let rest = entries(n1, z1);
        assert(s.pending =~= seq![PendingView { file: names[0], size: sizes[0], written: 0 }] + rest);
        assert(finishes_last(0, chunks[0], sizes[0] as int));
        lemma_one_file(s, names[0], sizes[0], 0, rest, chunks[0]);
        let s1 = with_pending(s, rest);
        lemma_run_concat(s, binary_events(chunks[0]), chunk_events(c1));
        assert forall|i: int| 0 <= i < n1.len() implies finishes_last(
            0,
            #[trigger] c1[i],
            z1[i] as int,
        ) by {
            assert(c1[i] == chunks[i + 1]);
        }
        lemma_files(s1, n1, z1, c1);
    }
}

pub(crate) proof fn lemma_opens(names: Seq<Seq<char>>)
    ensures
        forall|f: Seq<char>|
            files_of(apply_all(None, opens(names))).contains_key(f) <==> names.contains(f),
        forall|f: Seq<char>| #[trigger]
            files_of(apply_all(None, opens(names))).contains_key(f) ==> files_of(
                apply_all(None, opens(names)),
            )[f] == Seq::<u8>::empty(),
    decreases names.len(),
{
    if names.len() > 0 {
        let n1 = names.drop_last();
        assert(opens(names).drop_last() =~= opens(n1));
        lemma_opens(n1);
        assert forall|f: Seq<char>| names.contains(f) <==> (n1.contains(f) || f == names.last()) by {
            if names.contains(f) {
                let i = choose|i: int| 0 <= i < names.len() && names[i] == f;
                if i < names.len() - 1 {
                    assert(n1[i] == f);
                }
            }
            if n1.contains(f) {
                let i = choose|i: int| 0 <= i < n1.len() && n1[i] == f;
                assert(names[i] == f);
            }
            if f == names.last() {
                assert(names[names.len() - 1] == f);
            }
        }
    }
}

pub(crate) proof fn lemma_appends(m: Files, f: Seq<char>, cs: Seq<Seq<u8>>)
    requires
        m.contains_key(f),
    ensures
        apply_all(Some(m), appends(f, cs)) == Some(m.insert(f, m[f] + concat_all(cs))),
    decreases cs.len(),
{
    if cs.len() == 0 {
        assert(m[f] + concat_all(cs) =~= m[f]);
        assert(m.insert(f, m[f]) =~= m);
    } else {
        let c1 = cs.drop_last();
        assert(appends(f, cs).drop_last() =~= appends(f, c1));
        lemma_appends(m, f, c1);
        let m1 = m.insert(f, m[f] + concat_all(c1));
        assert(m1[f] + cs.last() =~= m[f] + concat_all(cs));
        assert(m1.insert(f, m1[f] + cs.last()) =~= m.insert(f, m[f] + concat_all(cs)));
    }
}

pub(crate) proof fn lemma_writes(w: Option<Files>, names: Seq<Seq<char>>, chunks: Seq<Seq<Seq<u8>>>, id: Seq<char>)
    requires
        names.len() == chunks.len(),
        forall|i: int, j: int| 0 <= i < j < names.len() ==> names[i] != names[j],
        forall|i: int| 0 <= i < names.len() ==> files_of(w).contains_key(#[trigger] names[i]),
    ensures
        ({
            let r = files_of(apply_all(w, writes(names, chunks, id)));
            &&& forall|f: Seq<char>| r.contains_key(f) <==> files_of(w).contains_key(f)
            &&& forall|f: Seq<char>| #[trigger]
                r.contains_key(f) && !names.contains(f) ==> r[f] == files_of(w)[f]
            &&& forall|i: int|
                0 <= i < names.len() ==> r[#[trigger] names[i]] == files_of(w)[names[i]]
                    + concat_all(chunks[i])
        }),
    decreases names.len(),
{
    let acts = writes(names, chunks, id);
    if names.len() == 0 {
        assert(acts =~= Seq::<ActionView>::empty());
    } else {
        let m = files_of(w);
        assert(m.contains_key(names[0]));
        let wm = w->Some_0;
        assert(w == Some(wm));
        let n1 = names.drop_first();
        let c1 = chunks.drop_first();
        let a0 = appends(names[0], chunks[0]);
        lemma_apply_all_concat(w, a0 + seq![link(id)], writes(n1, c1, id));
        lemma_apply_all_concat(w, a0, seq![link(id)]);
        lemma_appends(m, names[0], chunks[0]);
        let m1 = m.insert(names[0], m[names[0]] + concat_all(chunks[0]));
        assert(seq![link(id)].drop_last() =~= Seq::<ActionView>::empty());
        assert(seq![link(id)].last() == link(id));
        assert(apply_all(Some(m1), Seq::<ActionView>::empty()) == Some(m1));
        assert(apply_all(Some(m1), seq![link(id)]) == Some(m1));
        assert forall|i: int, j: int| 0 <= i < j < n1.len() implies n1[i] != n1[j] by {
            assert(n1[i] == names[i + 1] && n1[j] == names[j + 1]);
        }
        assert forall|i: int| 0 <= i < n1.len() implies files_of(Some(m1)).contains_key(
            #[trigger] n1[i],
        ) by {
            assert(n1[i] == names[i + 1]);
        }
        lemma_writes(Some(m1), n1, c1, id);
        let r = files_of(apply_all(w, acts));
        assert(!n1.contains(names[0])) by {
            if n1.contains(names[0]) {
                let k = choose|k: int| 0 <= k < n1.len() && n1[k] == names[0];
                assert(names[k + 1] == names[0]);
            }
        }
        assert forall|f: Seq<char>| #[trigger]
            r.contains_key(f) && !names.contains(f) implies r[f] == m[f] by {
            if n1.contains(f) {
                let k = choose|k: int| 0 <= k < n1.len() && n1[k] == f;
                assert(names[k + 1] == f);
            }
            if f == names[0] {
                assert(names.contains(f));
            }
        }
        assert forall|i: int| 0 <= i < names.len() implies r[#[trigger] names[i]] == m[names[i]]
            + concat_all(chunks[i]) by {
            if i > 0 {
                assert(n1[i - 1] == names[i]);
                assert(c1[i - 1] == chunks[i]);
                assert(names[i] != names[0]);
                assert(m1[names[i]] == m[names[i]]);
            } else {
                assert(m1.contains_key(names[0]));
                assert(r.contains_key(names[0]));
                assert(r[names[0]] == m1[names[0]]);
            }
        }
    }
}

} // verus!

//! Properties of the log that hold across calls.
use vstd::prelude::*;
use crate::actor::{follows, next_id_spec, read_frames_ok, replay_spec, retained};
use crate::frame::{is_signal, threshold_topic, Frame};
use crate::options::ReadOptions;
use crate::replay::{after_point, compacted, key_order, latest, ByTopic, CompactionStrategy};

verus! {

/// The identifiers that successive appends receive from the candidates
/// `fresh`, in the order the appends reach the command loop, starting after `last`.
pub open spec fn id_run(last: Option<u128>, fresh: Seq<u128>) -> Seq<u128>
    decreases fresh.len(),
{
    if fresh.len() == 0 {
        Seq::empty()
    } else {
        match next_id_spec(last, fresh[0]) {
            Some(id) => seq![id] + id_run(Some(id), fresh.drop_first()),
            None => Seq::empty(),
        }
    }
}

/// Whether the identifiers of `h` strictly increase.
pub open spec fn ids_increasing(h: Seq<Frame>) -> bool {
    forall|i: int, j: int| 0 <= i < j < h.len() ==> h[i].id < h[j].id
}

/// Total order: whatever the generator yields and however concurrent appends
/// are serialised by the loop, the identifiers handed out strictly increase,
/// and each is greater than every identifier handed out before.
pub proof fn lemma_total_order(last: Option<u128>, fresh: Seq<u128>)
    ensures
        forall|i: int, j: int|
            0 <= i < j < id_run(last, fresh).len() ==> id_run(last, fresh)[i] < id_run(last, fresh)[j],
        forall|i: int|
            0 <= i < id_run(last, fresh).len() ==> (last matches Some(l) ==> #[trigger] id_run(last, fresh)[i] > l),
    decreases fresh.len(),
{
    if fresh.len() > 0 {
        if let Some(id) = next_id_spec(last, fresh[0]) {
            lemma_total_order(Some(id), fresh.drop_first());
            let rest = id_run(Some(id), fresh.drop_first());
            let run = id_run(last, fresh);
            assert(run == seq![id] + rest);
            assert forall|i: int, j: int| 0 <= i < j < run.len() implies run[i] < run[j] by {
                if i > 0 {
                    assert(run[i] == rest[i - 1]);
                }
                assert(run[j] == rest[j - 1]);
            };
            assert forall|i: int| 0 <= i < run.len() implies (last matches Some(l) ==> #[trigger] run[i] > l) by {
                if i > 0 {
                    assert(run[i] == rest[i - 1]);
                }
            };
        }
    }
}

/// No-gap subscription: a following reader of the history `[a, b]` is sent
/// exactly `a`, `b` and the threshold marker; once registered it stays
/// registered, last in line, through every fan-out whose send to it succeeds,
/// so each later append reaches it in append order.
pub proof fn lemma_no_gap_subscription(
    a: Frame,
    b: Frame,
    o: ReadOptions,
    frames: Seq<Frame>,
    t: u128,
    subs: Seq<u64>,
    open: Seq<bool>,
    h: u64,
)
    requires
        a.id < b.id,
        follows(o),
        !o.tail,
        o.last_id is None,
        read_frames_ok(frames, o, None::<ByTopic>, seq![a, b], t),
        open.len() == subs.len(),
    ensures
        frames.len() == 3,
        frames[0] == a,
        frames[1] == b,
        is_signal(frames[2], t, threshold_topic()),
        retained(subs.push(h), open.push(true)) == retained(subs, open).push(h),
{
    let h2 = seq![a, b];
    assert(h2.drop_last() =~= seq![a]);
    assert(seq![a].drop_last() =~= Seq::<Frame>::empty());
    assert(h2.last() == b);
    assert(seq![a].last() == a);
    assert(after_point(Seq::<Frame>::empty(), None) == Seq::<Frame>::empty());
    assert(after_point(seq![a], None) =~= seq![a]);
    assert(after_point(h2, None) =~= seq![a, b]);
    assert(subs.push(h).drop_last() =~= subs);
    assert(open.push(true).drop_last() =~= open);
}

/// Tail skips history: a reader asking for the tail is sent no frame of the
/// history at all, and still becomes a subscriber when following.
pub proof fn lemma_tail_skips_history<C: CompactionStrategy>(
    o: ReadOptions,
    strategy: Option<C>,
    history: Seq<Frame>,
    frames: Seq<Frame>,
    t: u128,
)
    requires
        o.tail,
        read_frames_ok(frames, o, strategy, history, t),
    ensures
        frames.len() == 0,
{
}

proof fn lemma_nothing_after(h: Seq<Frame>, l: u128)
    requires
        forall|i: int| 0 <= i < h.len() ==> h[i].id <= l,
    ensures
        after_point(h, Some(l)) == Seq::<Frame>::empty(),
    decreases h.len(),
{
    if h.len() > 0 {
        lemma_nothing_after(h.drop_last(), l);
    }
}

/// Resume point: in a log of strictly increasing identifiers, resuming after
/// the identifier of the frame at `k` yields exactly the frames after it.
pub proof fn lemma_resume_point(h: Seq<Frame>, k: int)
    requires
        ids_increasing(h),
        0 <= k < h.len(),
    ensures
        after_point(h, Some(h[k].id)) == h.subrange(k + 1, h.len() as int),
    decreases h.len(),
{
    let prev = h.drop_last();
    if k == h.len() - 1 {
        lemma_nothing_after(prev, h[k].id);
        assert(h.subrange(k + 1, h.len() as int) =~= Seq::<Frame>::empty());
    } else {
        assert(prev[k] == h[k]);
        lemma_resume_point(prev, k);
        assert(h.subrange(k + 1, h.len() as int) =~= prev.subrange(k + 1, prev.len() as int).push(h.last()));
    }
}

/// Resume point, for a read: with history `[f1, f2]` and `last_id` the
/// identifier of `f1`, the replay is exactly `[f2]`.
pub proof fn lemma_resume_read(f1: Frame, f2: Frame, o: ReadOptions)
    requires
        f1.id < f2.id,
        !o.tail,
        o.last_id == Some(f1.id),
    ensures
        replay_spec(o, None::<ByTopic>, seq![f1, f2]) == seq![f2],
{
    let h = seq![f1, f2];
    lemma_resume_point(h, 0);
    assert(h.subrange(1, 2) =~= seq![f2]);
}

proof fn lemma_latest_is_last<C: CompactionStrategy>(c: C, s: Seq<Frame>, k: Seq<char>)
    ensures
        (latest(c, s, k) is None) <==> (forall|i: int| 0 <= i < s.len() ==> c.key_of(#[trigger] s[i]) != Some(k)),
        latest(c, s, k) matches Some(f) ==> exists|i: int|
            0 <= i < s.len() && s[i] == f && c.key_of(f) == Some(k) && (forall|j: int|
                i < j < s.len() ==> c.key_of(#[trigger] s[j]) != Some(k)),
    decreases s.len(),
{
    if s.len() > 0 {
        let prev = s.drop_last();
        lemma_latest_is_last(c, prev, k);
        if c.key_of(s.last()) == Some(k) {
            assert(s[s.len() - 1] == s.last());
        } else {
            assert forall|i: int| 0 <= i < prev.len() implies prev[i] == s[i] by {};
            if let Some(f) = latest(c, prev, k) {
                let i = choose|i: int|
                    0 <= i < prev.len() && prev[i] == f && c.key_of(f) == Some(k) && (forall|j: int|
                        i < j < prev.len() ==> c.key_of(#[trigger] prev[j]) != Some(k));
                assert(s[i] == f);
                assert forall|j: int| i < j < s.len() implies c.key_of(#[trigger] s[j]) != Some(k) by {
                    if j < prev.len() {
                        assert(s[j] == prev[j]);
                    }
                };
            } else {
                assert forall|i: int| 0 <= i < s.len() implies c.key_of(#[trigger] s[i]) != Some(k) by {
                    if i < prev.len() {
                        assert(s[i] == prev[i]);
                    }
                };
            }
        }
    }
}

proof fn lemma_key_order<C: CompactionStrategy>(c: C, s: Seq<Frame>)
    ensures
        forall|a: int, b: int|
            0 <= a < b < key_order(c, s).len() ==> key_order(c, s)[a] != key_order(c, s)[b],
        forall|i: int|
            0 <= i < s.len() ==> (c.key_of(#[trigger] s[i]) matches Some(k) ==> key_order(c, s).contains(k)),
        forall|j: int|
            #![trigger key_order(c, s)[j]]
            0 <= j < key_order(c, s).len() ==> exists|i: int|
                0 <= i < s.len() && c.key_of(#[trigger] s[i]) == Some(key_order(c, s)[j]),
    decreases s.len(),
{
    if s.len() > 0 {
        let prev = s.drop_last();
        lemma_key_order(c, prev);
        let ko = key_order(c, s);
        let kp = key_order(c, prev);
        assert forall|i: int| 0 <= i < prev.len() implies prev[i] == s[i] by {};
        assert forall|j: int| #![trigger ko[j]] 0 <= j < ko.len() implies exists|i: int|
            0 <= i < s.len() && c.key_of(#[trigger] s[i]) == Some(ko[j]) by {
            if j < kp.len() {
                assert(ko[j] == kp[j]);
                let i = choose|i: int| 0 <= i < prev.len() && c.key_of(#[trigger] prev[i]) == Some(kp[j]);
                assert(s[i] == prev[i]);
            } else {
                assert(c.key_of(s[s.len() - 1]) == Some(ko[j]));
            }
        };
        assert forall|i: int| 0 <= i < s.len() implies (c.key_of(#[trigger] s[i]) matches Some(k)
            ==> ko.contains(k)) by {
            if i < prev.len() {
                assert(s[i] == prev[i]);
                if let Some(k) = c.key_of(s[i]) {
                    let q = choose|q: int| 0 <= q < kp.len() && kp[q] == k;
                    assert(ko[q] == kp[q]);
                }
            } else if let Some(k) = c.key_of(s[i]) {
                if !kp.contains(k) {
                    assert(ko[kp.len() as int] == k);
                }
            }
        };
    }
}

/// Compaction: the compacted replay holds exactly one frame for each key
/// that occurs, no two with the same key, and each is the last frame of the
/// replayed history with its key.
pub proof fn lemma_compaction<C: CompactionStrategy>(c: C, s: Seq<Frame>)
    ensures
        forall|a: int, b: int|
            0 <= a < b < compacted(c, s).len() ==> c.key_of(compacted(c, s)[a]) != c.key_of(
                compacted(c, s)[b],
            ),
        forall|j: int|
            #![trigger compacted(c, s)[j]]
            0 <= j < compacted(c, s).len() ==> exists|i: int|
                0 <= i < s.len() && s[i] == compacted(c, s)[j] && c.key_of(s[i]) is Some && (forall|
                    m: int,
                | i < m < s.len() ==> c.key_of(#[trigger] s[m]) != c.key_of(s[i])),
        forall|i: int|
            0 <= i < s.len() && c.key_of(#[trigger] s[i]) is Some ==> exists|j: int|
                0 <= j < compacted(c, s).len() && c.key_of(compacted(c, s)[j]) == c.key_of(s[i]),
{
    let ko = key_order(c, s);
    let out = compacted(c, s);
    lemma_key_order(c, s);
    assert forall|j: int| 0 <= j < ko.len() implies latest(c, s, ko[j]) is Some && c.key_of(
        #[trigger] out[j],
    ) == Some(ko[j]) && exists|i: int|
        0 <= i < s.len() && s[i] == out[j] && c.key_of(s[i]) is Some && (forall|m: int|
            i < m < s.len() ==> c.key_of(#[trigger] s[m]) != c.key_of(s[i])) by {
        lemma_latest_is_last(c, s, ko[j]);
        let w = choose|i: int| 0 <= i < s.len() && c.key_of(#[trigger] s[i]) == Some(ko[j]);
        assert(c.key_of(s[w]) == Some(ko[j]));
    };
    assert forall|i: int| 0 <= i < s.len() && c.key_of(#[trigger] s[i]) is Some implies exists|j: int|
        0 <= j < out.len() && c.key_of(out[j]) == c.key_of(s[i]) by {
        let k = c.key_of(s[i])->Some_0;
        let j = choose|j: int| 0 <= j < ko.len() && ko[j] == k;
        assert(c.key_of(out[j]) == Some(ko[j]));
    };
}

} // verus!

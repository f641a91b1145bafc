//! Replay of history: the frames a reader is owed from the log, with optional
//! de-duplication by a caller-chosen key.
use vstd::prelude::*;
use crate::frame::Frame;
use crate::text::same_text;

verus! {

/// The characters of an optional string.
pub open spec fn text_opt(o: Option<String>) -> Option<Seq<char>> {
    match o {
        Some(s) => Some(s@),
        None => None,
    }
}

/// A rule that maps a frame to the key under which replay keeps only the
/// latest frame; frames without a key are left out of a compacted replay.
pub trait CompactionStrategy {
    spec fn key_of(&self, f: Frame) -> Option<Seq<char>>;

    fn key(&self, f: &Frame) -> (r: Option<String>)
        ensures
            text_opt(r) == self.key_of(*f),
    ;
}

/// Keeps the latest frame of each topic.
#[derive(Clone, Copy, Debug, PartialEq, Eq)]
pub struct ByTopic;

impl CompactionStrategy for ByTopic {
    open spec fn key_of(&self, f: Frame) -> Option<Seq<char>> {
        Some(f.topic@)
    }

    fn key(&self, f: &Frame) -> (r: Option<String>) {
        Some(f.topic.clone())
    }
}

/// Whether `f` lies after the resume point `last` (every frame does when
/// there is none).
pub open spec fn is_after(f: Frame, last: Option<u128>) -> bool {
    match last {
        Some(l) => f.id > l,
        None => true,
    }
}

/// The frames of `h` after the resume point, in their order.
pub open spec fn after_point(h: Seq<Frame>, last: Option<u128>) -> Seq<Frame>
    decreases h.len(),
{
    if h.len() == 0 {
        Seq::empty()
    } else if is_after(h.last(), last) {
        after_point(h.drop_last(), last).push(h.last())
    } else {
        after_point(h.drop_last(), last)
    }
}

/// The distinct keys of the frames of `s`, in the order of their first occurrence.
pub open spec fn key_order<C: CompactionStrategy>(c: C, s: Seq<Frame>) -> Seq<Seq<char>>
    decreases s.len(),
{
    if s.len() == 0 {
        Seq::empty()
    } else {
        let prev = key_order(c, s.drop_last());
        match c.key_of(s.last()) {
            Some(k) => if prev.contains(k) {
                prev
            } else {
                prev.push(k)
            },
            None => prev,
        }
    }
}

/// The last frame of `s` whose key is `k`.
pub open spec fn latest<C: CompactionStrategy>(c: C, s: Seq<Frame>, k: Seq<char>) -> Option<Frame>
    decreases s.len(),
{
    if s.len() == 0 {
        None
    } else if c.key_of(s.last()) == Some(k) {
        Some(s.last())
    } else {
        latest(c, s.drop_last(), k)
    }
}

/// For each key, in the order keys first occur, the last frame with that key.
pub open spec fn compacted<C: CompactionStrategy>(c: C, s: Seq<Frame>) -> Seq<Frame> {
    key_order(c, s).map_values(|k: Seq<char>| latest(c, s, k)->Some_0)
}

/// The last frame of `h` on the topic `topic`.
pub open spec fn head_spec(h: Seq<Frame>, topic: Seq<char>) -> Option<Frame>
    decreases h.len(),
{
    if h.len() == 0 {
        None
    } else if h.last().topic@ == topic {
        Some(h.last())
    } else {
        head_spec(h.drop_last(), topic)
    }
}

/// The most recent frame of `history` on the topic `topic`, found by a
/// backward scan.
pub fn head_of(history: &Vec<Frame>, topic: &str) -> (r: Option<Frame>)
    ensures
        r == head_spec(history@, topic@),
{
    let mut i: usize = history.len();
    assert(history@.subrange(0, i as int) =~= history@);
    while i > 0
        invariant
            i <= history.len(),
            head_spec(history@, topic@) == head_spec(history@.subrange(0, i as int), topic@),
        decreases i,
    {
        let ghost sub = history@.subrange(0, i as int);
        assert(sub.drop_last() =~= history@.subrange(0, i - 1));
        assert(sub.last() == history@[i - 1]);
        if same_text(history[i - 1].topic.as_str(), topic) {
            return Some(history[i - 1].clone());
        }
        i = i - 1;
    }
    None
}

/// The frames of `history` after the resume point `last`, in order.
pub fn select_after(history: &Vec<Frame>, last: Option<u128>) -> (r: Vec<Frame>)
    ensures
        r@ == after_point(history@, last),
{
    let mut out: Vec<Frame> = Vec::new();
    let mut i: usize = 0;
    while i < history.len()
        invariant
            i <= history.len(),
            out@ == after_point(history@.subrange(0, i as int), last),
        decreases history.len() - i,
    {
        proof {
            assert(history@.subrange(0, i + 1).drop_last() =~= history@.subrange(0, i as int));
        }
        let keep = match last {
            Some(l) => history[i].id > l,
            None => true,
        };
        if keep {
            out.push(history[i].clone());
        }
        i = i + 1;
    }
    assert(history@.subrange(0, i as int) =~= history@);
    out
}

/// The latest frame of each key of `frames`, keys in order of first occurrence.
pub fn compact<C: CompactionStrategy>(strategy: &C, frames: &Vec<Frame>) -> (r: Vec<Frame>)
    ensures
        r@ == compacted(*strategy, frames@),
{
    let ghost c = *strategy;
    let mut keys: Vec<String> = Vec::new();
    let mut out: Vec<Frame> = Vec::new();
    let mut i: usize = 0;
    while i < frames.len()
        invariant
            c == *strategy,
            i <= frames.len(),
            keys.len() == out.len(),
            keys@.map_values(|k: String| k@) == key_order(c, frames@.subrange(0, i as int)),
            forall|j: int|
                0 <= j < out.len() ==> latest(c, frames@.subrange(0, i as int), #[trigger] keys@[j]@)
                    == Some(out@[j]),
            forall|a: int, b: int| 0 <= a < b < keys.len() ==> keys@[a]@ != keys@[b]@,
        decreases frames.len() - i,
    {
        let ghost prefix = frames@.subrange(0, i as int);
        let ghost next = frames@.subrange(0, i + 1);
        proof {
            assert(next.drop_last() =~= prefix);
            assert(next.last() == frames@[i as int]);
        }
        match strategy.key(&frames[i]) {
            None => {
                proof {
                    assert forall|j: int| 0 <= j < out.len() implies latest(c, next, #[trigger] keys@[j]@)
                        == Some(out@[j]) by {};
                }
            },
            Some(k) => {
                let mut p: usize = 0;
                let mut found = false;
                while p < keys.len() && !found
                    invariant
                        p <= keys.len(),
                        found ==> p < keys.len() && keys@[p as int]@ == k@,
                        forall|q: int| 0 <= q < p ==> keys@[q]@ != k@,
                    decreases keys.len() - p + (if found { 0int } else { 1int }),
                {
                    if keys[p] == k {
                        found = true;
                    } else {
                        p = p + 1;
                    }
                }
                let ghost kv = keys@.map_values(|s: String| s@);
                if found {
                    assert(kv[p as int] == k@);
                    assert(kv.contains(k@));
                    let ghost old_out = out@;
                    out.set(p, frames[i].clone());
                    proof {
                        assert forall|j: int| 0 <= j < out.len() implies latest(c, next, #[trigger] keys@[j]@)
                            == Some(out@[j]) by {
                            if j != p {
                                assert(kv[j] == keys@[j]@);
                                assert(keys@[j]@ != k@);
                                assert(latest(c, prefix, keys@[j]@) == Some(old_out[j]));
                            }
                        };
                    }
                } else {
                    proof {
                        assert forall|q: int| 0 <= q < kv.len() implies kv[q] != k@ by {
                            assert(kv[q] == keys@[q]@);
                        };
                        assert(!kv.contains(k@));
                    }
                    let ghost old_keys = keys@;
                    keys.push(k);
                    out.push(frames[i].clone());
                    proof {
                        assert(keys@.map_values(|s: String| s@) =~= kv.push(k@));
                        assert forall|j: int| 0 <= j < out.len() implies latest(c, next, #[trigger] keys@[j]@)
                            == Some(out@[j]) by {
                            if j < out.len() - 1 {
                                assert(kv[j] == keys@[j]@);
                                assert(keys@[j] == old_keys[j]);
                            }
                        };
                    }
                }
            },
        }
        i = i + 1;
    }
    let ghost all = frames@.subrange(0, i as int);
    assert(all =~= frames@);
    let ghost kv = keys@.map_values(|s: String| s@);
    assert forall|j: int| 0 <= j < out.len() implies out@[j] == compacted(c, frames@)[j] by {
        assert(kv[j] == keys@[j]@);
    };
    assert(out@ =~= compacted(c, frames@));
    out
}

} // verus!

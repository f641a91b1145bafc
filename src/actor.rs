//! The decisions of the store's single command loop.
//!
//! The loop owns the subscriber list and the last identifier it handed out.
//! For an append it picks the identifier, says whether the frame is written to
//! the log and to whom it is sent; for a read it says which frames the reader
//! is sent and whether it stays subscribed. The caller performs the writes and
//! sends, and reports back which subscribers could still be reached.
use vstd::prelude::*;
use crate::frame::{is_signal, threshold_topic, Frame, TTL};
use crate::ident::fresh_id;
use crate::options::{FollowOption, ReadOptions};
use crate::replay::{after_point, compact, compacted, select_after, CompactionStrategy};

verus! {

/// The identifier that follows `last`, given a freshly generated candidate:
/// the candidate when it is greater, else one more than `last`; `None` once
/// the identifiers are exhausted.
pub open spec fn next_id_spec(last: Option<u128>, fresh: u128) -> Option<u128> {
    match last {
        None => Some(fresh),
        Some(l) => if fresh > l {
            Some(fresh)
        } else if l < u128::MAX {
            Some((l + 1) as u128)
        } else {
            None
        },
    }
}

/// What one append asks the caller to do.
pub struct AppendPlan {
    /// The finished frame, with its identifier.
    pub frame: Frame,
    /// Whether the frame is written to the log.
    pub persist: bool,
    /// The subscribers the frame is sent to, in order.
    pub recipients: Vec<u64>,
}

/// What one read asks the caller to do.
pub struct ReadPlan {
    /// The frames to send to the reader, in order; sending stops at the first
    /// failure.
    pub frames: Vec<Frame>,
    /// Whether the reader is then registered as a live subscriber.
    pub subscribe: bool,
}

/// The strategy behind an optional reference.
pub open spec fn strategy_of<C>(s: Option<&C>) -> Option<C> {
    match s {
        Some(c) => Some(*c),
        None => None,
    }
}

/// Whether the options keep the reader attached after the replay.
pub open spec fn follows(o: ReadOptions) -> bool {
    !(o.follow is Off)
}

/// The replayed history a reader is owed, before any marker.
pub open spec fn replay_spec<C: CompactionStrategy>(
    o: ReadOptions,
    strategy: Option<C>,
    history: Seq<Frame>,
) -> Seq<Frame> {
    if o.tail {
        Seq::empty()
    } else {
        match strategy {
            Some(c) => compacted(c, after_point(history, o.last_id)),
            None => after_point(history, o.last_id),
        }
    }
}

/// Whether the replay is closed by the `xs.threshold` marker: when following
/// after an uncompacted replay.
pub open spec fn has_threshold<C: CompactionStrategy>(o: ReadOptions, strategy: Option<C>) -> bool {
    follows(o) && !o.tail && strategy is None
}

/// The frames a read sends: the replay, then the marker with identifier `t`
/// where one is owed.
pub open spec fn read_frames_ok<C: CompactionStrategy>(
    frames: Seq<Frame>,
    o: ReadOptions,
    strategy: Option<C>,
    history: Seq<Frame>,
    t: u128,
) -> bool {
    let replay = replay_spec(o, strategy, history);
    if has_threshold(o, strategy) {
        frames.len() == replay.len() + 1 && frames.drop_last() == replay && is_signal(
            frames.last(),
            t,
            threshold_topic(),
        )
    } else {
        frames == replay
    }
}

/// The subscribers that stay registered after a fan-out: those whose send
/// succeeded, in their order.
pub open spec fn retained(subs: Seq<u64>, open: Seq<bool>) -> Seq<u64>
    decreases subs.len(),
{
    if subs.len() == 0 || open.len() == 0 {
        Seq::empty()
    } else if open.last() {
        retained(subs.drop_last(), open.drop_last()).push(subs.last())
    } else {
        retained(subs.drop_last(), open.drop_last())
    }
}

/// The read plan for the given options over the history scanned from the
/// log (in ascending identifier order), with `threshold_id` for the marker.
pub fn plan_read<C: CompactionStrategy>(
    options: &ReadOptions,
    strategy: Option<&C>,
    history: &Vec<Frame>,
    threshold_id: u128,
) -> (r: ReadPlan)
    ensures
        read_frames_ok(
            r.frames@,
            *options,
            strategy_of(strategy),
            history@,
            threshold_id,
        ),
        r.subscribe == follows(*options),
{
    let ghost s = strategy_of(strategy);
    let mut frames: Vec<Frame> = if options.tail {
        Vec::new()
    } else {
        let selected = select_after(history, options.last_id);
        match strategy {
            Some(c) => compact(c, &selected),
            None => selected,
        }
    };
    assert(frames@ == replay_spec(*options, s, history@));
    let subscribe = match options.follow {
        FollowOption::Off => false,
        _ => true,
    };
    if subscribe && !options.tail && strategy.is_none() {
        let ghost before = frames@;
        frames.push(Frame::threshold(threshold_id));
        assert(frames@.drop_last() =~= before);
    }
    ReadPlan { frames, subscribe }
}

/// The command loop's own state.
pub struct Actor {
    /// Handles of the live subscribers, in order of registration.
    pub subscribers: Vec<u64>,
    /// The greatest identifier handed out so far, if any.
    pub last_id: Option<u128>,
}

impl Actor {
    /// A loop with no subscribers that continues after `last_id`, the greatest
    /// identifier already in the log.
    pub fn new(last_id: Option<u128>) -> (r: Actor)
        ensures
            r.subscribers@ == Seq::<u64>::empty(),
            r.last_id == last_id,
    {
        Actor { subscribers: Vec::new(), last_id }
    }

    /// Picks the identifier that follows the last one, given the candidate
    /// `fresh`, and records it.
    pub fn take_id(&mut self, fresh: u128) -> (r: Option<u128>)
        ensures
            r == next_id_spec(old(self).last_id, fresh),
            final(self).subscribers == old(self).subscribers,
            final(self).last_id == (if r is Some {
                r
            } else {
                old(self).last_id
            }),
    {
        let next = match self.last_id {
            None => Some(fresh),
            Some(l) => if fresh > l {
                Some(fresh)
            } else if l < u128::MAX {
                Some(l + 1)
            } else {
                None
            },
        };
        if next.is_some() {
            self.last_id = next;
        }
        next
    }

    /// Handles an append: assigns the next identifier, greater than every one
    /// handed out before, and plans the write and the fan-out. `None` once the
    /// identifiers are exhausted.
    pub fn append(
        &mut self,
        topic: String,
        hash: Option<String>,
        meta: Option<String>,
        ttl: TTL,
    ) -> (r: Option<AppendPlan>)
        ensures
            final(self).subscribers == old(self).subscribers,
            (r is None) == (old(self).last_id == Some(u128::MAX)),
            match r {
                Some(p) => {
                    &&& final(self).last_id == Some(p.frame.id)
                    &&& (old(self).last_id matches Some(l) ==> p.frame.id > l)
                    &&& p.frame.topic == topic
                    &&& p.frame.hash == hash
                    &&& p.frame.meta == meta
                    &&& p.persist == !(ttl is Ephemeral)
                    &&& p.recipients@ == old(self).subscribers@
                },
                None => final(self).last_id == old(self).last_id,
            },
    {
        let fresh = fresh_id();
        match self.take_id(fresh) {
            None => None,
            Some(id) => {
                let persist = ttl.is_persisted();
                let recipients = self.subscribers.clone();
                assert(recipients@ =~= self.subscribers@);
                Some(AppendPlan { frame: Frame { id, topic, hash, meta }, persist, recipients })
            },
        }
    }

    /// Handles a read over the history scanned from the log; the marker takes
    /// a freshly generated identifier.
    pub fn read<C: CompactionStrategy>(
        &self,
        options: &ReadOptions,
        strategy: Option<&C>,
        history: &Vec<Frame>,
    ) -> (r: ReadPlan)
        ensures
            exists|t: u128|
                #[trigger] read_frames_ok(
                    r.frames@,
                    *options,
                    strategy_of(strategy),
                    history@,
                    t,
                ),
            r.subscribe == follows(*options),
    {
        let t = fresh_id();
        plan_read(options, strategy, history, t)
    }

    /// Registers a reader whose replay was delivered in full as a live subscriber.
    pub fn register(&mut self, handle: u64)
        ensures
            final(self).subscribers@ == old(self).subscribers@.push(handle),
            final(self).last_id == old(self).last_id,
    {
        self.subscribers.push(handle);
    }

    /// Closes a read: the reader becomes a live subscriber under `handle` when
    /// the plan asks for it and every frame of the plan reached it; a reader
    /// that went away during the replay is forgotten.
    pub fn finish_read(&mut self, plan: &ReadPlan, delivered: bool, handle: u64) -> (registered: bool)
        ensures
            registered == (plan.subscribe && delivered),
            final(self).subscribers@ == (if registered {
                old(self).subscribers@.push(handle)
            } else {
                old(self).subscribers@
            }),
            final(self).last_id == old(self).last_id,
    {
        if plan.subscribe && delivered {
            self.register(handle);
            true
        } else {
            false
        }
    }

    /// After a fan-out, keeps the subscribers whose send succeeded; `open`
    /// holds one outcome per subscriber, in order.
    pub fn retain_open(&mut self, open: &Vec<bool>)
        requires
            open.len() == old(self).subscribers.len(),
        ensures
            final(self).subscribers@ == retained(old(self).subscribers@, open@),
            final(self).last_id == old(self).last_id,
    {
        let mut kept: Vec<u64> = Vec::new();
        let mut i: usize = 0;
        while i < open.len()
            invariant
                i <= open.len(),
                open.len() == self.subscribers.len(),
                kept@ == retained(self.subscribers@.subrange(0, i as int), open@.subrange(0, i as int)),
            decreases open.len() - i,
        {
            proof {
                assert(self.subscribers@.subrange(0, i + 1).drop_last() =~= self.subscribers@.subrange(0, i as int));
                assert(open@.subrange(0, i + 1).drop_last() =~= open@.subrange(0, i as int));
            }
            if open[i] {
                kept.push(self.subscribers[i]);
            }
            i = i + 1;
        }
        assert(self.subscribers@.subrange(0, i as int) =~= self.subscribers@);
        assert(open@.subrange(0, i as int) =~= open@);
        self.subscribers = kept;
    }
}

} // verus!

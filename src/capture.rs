use vstd::prelude::*;

use crate::exchanges::FeedError;
use crate::order::Snapshot;

verus! {

/// What the connection handed a feed adapter, after the adapter's parser
/// looked at it.
pub enum FeedEvent {
    /// A depth message, turned into a snapshot.
    Parsed(Snapshot),
    /// A depth message whose price or size did not parse.
    Malformed,
    /// A control frame or an unrelated event.
    Ignored,
    /// The exchange closed the connection.
    Closed,
    /// Reading from the connection failed.
    ReadFailed,
    /// The capture window is over.
    Cancelled,
}

/// What the adapter does next.
pub enum FeedAction {
    /// Overwrite the capture slot with this snapshot, then stop if told to.
    Publish { snapshot: Snapshot, then_stop: bool },
    /// Wait for the next message.
    Continue,
    /// Stop, with this outcome.
    Stop(Result<(), FeedError>),
}

/// How an adapter treats malformed messages, and whether it stops on its
/// own after a number of snapshots.
#[derive(Clone, Copy, Debug)]
pub struct FeedPolicy {
    pub skip_malformed: bool,
    pub max_snapshots: Option<u64>,
}

/// The running count of snapshots an adapter has published.
#[derive(Clone, Copy, Debug)]
pub struct FeedState {
    pub published: u64,
}

pub open spec fn limit_reached(published: nat, policy: FeedPolicy) -> bool {
    match policy.max_snapshots {
        Some(m) => published >= m,
        None => false,
    }
}

impl FeedState {
    pub fn new() -> (r: FeedState)
        ensures
            r.published == 0,
    {
        FeedState { published: 0 }
    }

    /// Decides what to do with one event: publish each snapshot (counting
    /// it, and stopping once the policy's limit is reached), skip control
    /// frames, and stop on cancellation, on a closed or failed connection,
    /// and on a malformed message unless the policy skips those.
    pub fn step(&mut self, policy: FeedPolicy, event: FeedEvent) -> (r: FeedAction)
        ensures
            match event {
                FeedEvent::Parsed(s) => {
                    &&& final(self).published == if old(self).published < u64::MAX {
                        old(self).published + 1
                    } else {
                        old(self).published as int
                    }
                    &&& r == FeedAction::Publish {
                        snapshot: s,
                        then_stop: limit_reached(final(self).published as nat, policy),
                    }
                },
                FeedEvent::Malformed => {
                    &&& final(self).published == old(self).published
                    &&& r == if policy.skip_malformed {
                        FeedAction::Continue
                    } else {
                        FeedAction::Stop(Err(FeedError::Parse))
                    }
                },
                FeedEvent::Ignored => final(self).published == old(self).published && r
                    == FeedAction::Continue,
                FeedEvent::Closed => final(self).published == old(self).published && r
                    == FeedAction::Stop(Err(FeedError::Closed)),
                FeedEvent::ReadFailed => final(self).published == old(self).published && r
                    == FeedAction::Stop(Err(FeedError::Transport)),
                FeedEvent::Cancelled => final(self).published == old(self).published && r
                    == FeedAction::Stop(Ok(())),
            },
    {
        match event {
            FeedEvent::Parsed(snapshot) => {
                if self.published < u64::MAX {
                    self.published = self.published + 1;
                }
                let then_stop = match policy.max_snapshots {
                    Some(m) => self.published >= m,
                    None => false,
                };
                FeedAction::Publish { snapshot, then_stop }
            },
            FeedEvent::Malformed => {
                if policy.skip_malformed {
                    FeedAction::Continue
                } else {
                    FeedAction::Stop(Err(FeedError::Parse))
                }
            },
            FeedEvent::Ignored => FeedAction::Continue,
            FeedEvent::Closed => FeedAction::Stop(Err(FeedError::Closed)),
            FeedEvent::ReadFailed => FeedAction::Stop(Err(FeedError::Transport)),
            FeedEvent::Cancelled => FeedAction::Stop(Ok(())),
        }
    }
}

/// The event for one parsed depth message: its snapshot, or `Malformed`
/// where parsing failed.
pub fn parsed_event(parsed: Result<Snapshot, FeedError>) -> (r: FeedEvent)
    ensures
        match parsed {
            Ok(s) => r == FeedEvent::Parsed(s),
            Err(_) => r == FeedEvent::Malformed,
        },
{
    match parsed {
        Ok(s) => FeedEvent::Parsed(s),
        Err(_) => FeedEvent::Malformed,
    }
}

/// Collects the capture slots after the window: one snapshot per slot, in
/// slot order, an empty one for a slot that never received data.
pub fn harvest(slots: Vec<Option<Snapshot>>) -> (r: Vec<Snapshot>)
    ensures
        r@.len() == slots@.len(),
        forall|i: int|
            0 <= i < r@.len() ==> match slots@[i] {
                Some(s) => #[trigger] r@[i] == s,
                None => r@[i].0@.len() == 0 && r@[i].1@.len() == 0,
            },
{
    let ghost orig = slots@;
    let mut slots = slots;
    let mut out: Vec<Snapshot> = Vec::new();
    let n = slots.len();
    let mut k: usize = 0;
    while k < n
        invariant
            n == orig.len(),
            k + slots@.len() == n,
            slots@ == orig.skip(k as int),
            out@.len() == k,
            forall|i: int|
                0 <= i < k ==> match orig[i] {
                    Some(s) => #[trigger] out@[i] == s,
                    None => out@[i].0@.len() == 0 && out@[i].1@.len() == 0,
                },
        decreases n - k,
    {
        let slot = slots.remove(0);
        assert(orig[k as int] == slot);
        match slot {
            Some(s) => out.push(s),
            None => out.push((Vec::new(), Vec::new())),
        }
        assert(orig.skip(k + 1) =~= orig.skip(k as int).remove(0));
        k = k + 1;
    }
    out
}

} // verus!

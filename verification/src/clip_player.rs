//! The clip player's state: the clips registered per slot, the single-slot
//! pending mailbox a coil write publishes into, and the playback cursor the
//! audio callback advances.  The application owns the actual output stream;
//! it asks this state for the next block of samples on every callback.

use std::collections::BTreeMap;
use vstd::prelude::*;

verus! {

broadcast use vstd::laws_cmp::group_laws_cmp;

/// The model of [`ClipPlayer`]: the samples registered per slot, the slot
/// queued for the callback to switch to (if any), and the clip being played
/// with the cursor into it.
pub struct ClipPlayerView {
    pub clips: Map<u16, Seq<i16>>,
    pub pending: Option<u16>,
    pub current: Seq<i16>,
    pub pos: nat,
}

/// One callback pass over the model `m` asking for `want` samples: the
/// model afterwards, the samples to copy out, and whether the clip is done.
///
/// If a clip is queued it becomes current with the cursor reset, and the
/// mailbox is cleared.  Then `min(want, samples left)` samples are handed
/// out from the cursor on, the cursor advances past them, and completion is
/// signalled exactly when the cursor reaches the end of the clip.
pub open spec fn spec_next_block(m: ClipPlayerView, want: nat) -> (ClipPlayerView, Seq<i16>, bool) {
    let (cur, start) = match m.pending {
        Some(slot) => (m.clips[slot], 0 as nat),
        None => (m.current, m.pos),
    };
    let copy_len = if want <= cur.len() - start {
        want
    } else {
        (cur.len() - start) as nat
    };
    let end = start + copy_len;
    (
        ClipPlayerView { clips: m.clips, pending: None, current: cur, pos: end },
        cur.subrange(start as int, end as int),
        end == cur.len(),
    )
}

/// The registered clips and the hand-off state between coil writes and the
/// audio callback.  `play_clip` publishes a registered slot into the
/// mailbox; `next_block` is the callback's pass: it claims the mailbox and
/// yields the next run of samples.
pub struct ClipPlayer {
    clips: BTreeMap<u16, Vec<i16>>,
    pending: Option<u16>,
    current: Vec<i16>,
    pos: usize,
}

impl View for ClipPlayer {
    type V = ClipPlayerView;

    closed spec fn view(&self) -> ClipPlayerView {
        ClipPlayerView {
            clips: Map::new(
                |slot: u16| self.clips@.contains_key(slot),
                |slot: u16| self.clips@[slot]@,
            ),
            pending: self.pending,
            current: self.current@,
            pos: self.pos as nat,
        }
    }
}

impl ClipPlayer {
    /// The player is well formed: the cursor sits within the current clip
    /// and only a registered slot is ever queued.
    pub open spec fn wf(self) -> bool {
        &&& self@.pos <= self@.current.len()
        &&& match self@.pending {
            Some(slot) => self@.clips.contains_key(slot),
            None => true,
        }
    }

    /// A player with no clips, nothing queued, and nothing playing.
    pub fn new() -> (p: ClipPlayer)
        ensures
            p.wf(),
            p@.clips == Map::<u16, Seq<i16>>::empty(),
            p@.pending is None,
            p@.current == Seq::<i16>::empty(),
            p@.pos == 0,
    {
        let p = ClipPlayer { clips: BTreeMap::new(), pending: None, current: Vec::new(), pos: 0 };
        proof {
            assert(p@.clips =~= Map::<u16, Seq<i16>>::empty());
        }
        p
    }

    /// Registers `clip` under `index`, replacing any clip already there.
    pub fn add_clip(&mut self, index: u16, clip: Vec<i16>)
        requires
            old(self).wf(),
        ensures
            final(self).wf(),
            final(self)@.clips == old(self)@.clips.insert(index, clip@),
            final(self)@.pending == old(self)@.pending,
            final(self)@.current == old(self)@.current,
            final(self)@.pos == old(self)@.pos,
    {
        self.clips.insert(index, clip);
        proof {
            assert(self@.clips =~= old(self)@.clips.insert(index, clip@));
        }
    }

    /// Queues the clip registered at `index` for the callback and reports
    /// whether there was one; an unknown slot changes nothing.  When the
    /// player reports `true` the caller is expected to (re)start its output
    /// stream so the callback comes around to claim the mailbox.
    pub fn play_clip(&mut self, index: u16) -> (started: bool)
        requires
            old(self).wf(),
        ensures
            final(self).wf(),
            started == old(self)@.clips.contains_key(index),
            final(self)@.clips == old(self)@.clips,
            final(self)@.current == old(self)@.current,
            final(self)@.pos == old(self)@.pos,
            final(self)@.pending == if started {
                Some(index)
            } else {
                old(self)@.pending
            },
    {
        if self.clips.contains_key(&index) {
            self.pending = Some(index);
            true
        } else {
            false
        }
    }

    /// The audio callback's pass, as [`spec_next_block`] describes: claims
    /// any queued clip, hands out the next `min(want, samples left)`
    /// samples, and reports whether the clip just finished.
    pub fn next_block(&mut self, want: usize) -> (r: (Vec<i16>, bool))
        requires
            old(self).wf(),
        ensures
            final(self).wf(),
            (final(self)@, r.0@, r.1) == spec_next_block(old(self)@, want as nat),
    {
        match self.pending {
            Some(slot) => {
                let clip = self.clips.get(&slot);
                let clip = match clip {
                    Some(c) => c.clone(),
                    None => Vec::new(),
                };
                proof {
                    assert(self@.clips.contains_key(slot));
                    assert(forall|i: int|
                        0 <= i < clip@.len() ==> clip@[i] == self.clips@[slot]@[i]);
                    assert(clip@ =~= self@.clips[slot]);
                }
                self.current = clip;
                self.pos = 0;
                self.pending = None;
            },
            None => {
            },
        }
        let remaining: usize = self.current.len() - self.pos;
        let copy_len: usize = if want <= remaining {
            want
        } else {
            remaining
        };
        let end: usize = self.pos + copy_len;
        let mut block: Vec<i16> = Vec::new();
        let mut i: usize = self.pos;
        while i < end
            invariant
                self.pos <= i <= end,
                end <= self.current@.len(),
                block@ =~= self.current@.subrange(self.pos as int, i as int),
            decreases end - i,
        {
            block.push(self.current[i]);
            i = i + 1;
        }
        assert(block@ =~= self.current@.subrange(self.pos as int, end as int));
        let complete: bool = end == self.current.len();
        self.pos = end;
        (block, complete)
    }
}

} // verus!

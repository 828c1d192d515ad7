//! What an e-paper panel with a quick refresh has to be sent: the panel
//! shows a set bit as white, and it can refresh quickly only while it still
//! holds the frame that it shows.
use vstd::prelude::*;

verus! {

/// How a frame is sent to the panel.
#[derive(Debug, Clone, Copy, PartialEq, Eq, Structural)]
pub enum EpdWrite {
    /// The frame is sent as the new one of two and shown by a quick refresh.
    /// Where `resend_old` holds, the panel has lost the frame that it shows,
    /// which is sent again first.
    Quick { resend_old: bool },
    /// The frame is sent alone and shown by a full refresh.
    Full,
}

/// What is known of the memory of the panel.
#[derive(Debug)]
pub struct EpdMemory {
    /// Whether the panel still holds the frame that it shows.
    memory_content: bool,
    /// The frame that the panel shows, as it was sent.
    current_frame: Option<Vec<u8>>,
    /// How many quick refreshes may follow one another.
    max_partial: u8,
    /// How many quick refreshes have followed one another.
    cur_partial: u8,
}

/// The bytes of a frame with every bit flipped.
pub open spec fn flipped(frame: Seq<u8>) -> Seq<u8> {
    Seq::new(frame.len(), |i: int| !frame[i])
}

/// The frame as the panel wants it: every bit flipped.
pub fn inverted(buffer: &[u8]) -> (frame: Vec<u8>)
    ensures
        frame@ == flipped(buffer@),
{
    let mut frame: Vec<u8> = Vec::new();
    let mut i: usize = 0;
    while i < buffer.len()
        invariant
            i <= buffer.len(),
            frame@.len() == i,
            forall|k: int| 0 <= k < i ==> frame@[k] == !buffer@[k],
        decreases buffer.len() - i,
    {
        frame.push(!buffer[i]);
        i += 1;
    }
    proof {
        assert(frame@ =~= flipped(buffer@));
    }
    frame
}

impl EpdMemory {
    /// Whether the panel still holds the frame that it shows.
    pub closed spec fn holds_frame(&self) -> bool {
        self.memory_content
    }

    /// The frame that the panel shows, as it was sent, if it shows one.
    pub closed spec fn shown(&self) -> Option<Seq<u8>> {
        match self.current_frame {
            Some(frame) => Some(frame@),
            None => None,
        }
    }

    /// How many quick refreshes may follow one another.
    pub closed spec fn limit(&self) -> u8 {
        self.max_partial
    }

    /// How many quick refreshes have followed one another.
    pub closed spec fn quick_refreshes(&self) -> u8 {
        self.cur_partial
    }

    /// The way in which the next frame is sent: quickly where a full
    /// refresh is not asked for, a frame is shown and the limit of quick
    /// refreshes in a row is not reached; else in full.
    pub open spec fn next_write(&self, full: bool) -> EpdWrite {
        if !full && self.shown().is_some() && self.quick_refreshes() < self.limit() {
            EpdWrite::Quick { resend_old: !self.holds_frame() }
        } else {
            EpdWrite::Full
        }
    }

    /// The memory of a panel that has just been set up and shows nothing.
    pub fn new(max_partial: u8) -> (memory: Self)
        ensures
            !memory.holds_frame(),
            memory.shown().is_none(),
            memory.limit() == max_partial,
            memory.quick_refreshes() == 0,
    {
        EpdMemory { memory_content: false, current_frame: None, max_partial, cur_partial: 0 }
    }

    /// Decides how the next frame is sent.
    pub fn plan(&self, full: bool) -> (write: EpdWrite)
        ensures
            write == self.next_write(full),
    {
        if !full && self.current_frame.is_some() && self.cur_partial < self.max_partial {
            EpdWrite::Quick { resend_old: !self.memory_content }
        } else {
            EpdWrite::Full
        }
    }

    /// The frame that the panel shows, if it shows one.
    pub fn current_frame(&self) -> (frame: Option<&Vec<u8>>)
        ensures
            match frame {
                Some(bytes) => self.shown() == Some(bytes@),
                None => self.shown().is_none(),
            },
    {
        self.current_frame.as_ref()
    }

    /// Takes note that the frame that the panel shows was sent to it again.
    pub fn resent(&mut self)
        ensures
            final(self).holds_frame(),
            final(self).shown() == old(self).shown(),
            final(self).limit() == old(self).limit(),
            final(self).quick_refreshes() == old(self).quick_refreshes(),
    {
        self.memory_content = true;
    }

    /// Takes note that `frame` was sent and shown in the way `write`. A
    /// quick refresh counts towards the limit; after a full refresh the
    /// count starts over, and the panel no longer holds a frame to refresh
    /// quickly from.
    pub fn written(&mut self, write: EpdWrite, frame: Vec<u8>)
        requires
            write is Quick ==> old(self).quick_refreshes() < old(self).limit(),
        ensures
            final(self).shown() == Some(frame@),
            final(self).limit() == old(self).limit(),
            final(self).quick_refreshes() == if write is Quick {
                (old(self).quick_refreshes() + 1) as u8
            } else {
                0u8
            },
            final(self).holds_frame() == (write is Quick && old(self).holds_frame()),
    {
        match write {
            EpdWrite::Quick { resend_old: _ } => {
                self.cur_partial = self.cur_partial + 1;
            },
            EpdWrite::Full => {
                self.memory_content = false;
                self.cur_partial = 0;
            },
        }
        self.current_frame = Some(frame);
    }

    /// Takes note that the panel was woken: it has lost what it held.
    pub fn woken(&mut self)
        ensures
            !final(self).holds_frame(),
            final(self).shown() == old(self).shown(),
            final(self).limit() == old(self).limit(),
            final(self).quick_refreshes() == old(self).quick_refreshes(),
    {
        self.memory_content = false;
    }
}

} // verus!

//! Playback: what a player does next.
//!
//! The player itself lists a directory, reads files, talks to a viewer and
//! sleeps. None of that happens here. A [`Playback`] holds how far a run
//! has come; [`Playback::action`] names the piece of work that is due, and
//! [`Playback::step`] takes the outcome of that work and moves on. A run
//! plays the frames in order, one after the other, and ends at the first
//! failure.

use vstd::prelude::*;

verus! {

/// Milliseconds for which the player rests after each frame.
pub const FRAME_DELAY_MS: u64 = 300;

/// Why a run ended early.
#[derive(Clone, Copy, Debug, PartialEq, Eq, Structural)]
pub enum PlaybackError {
    /// The directory of the dataset could not be listed.
    DirectoryUnreadable,
    /// The file of the frame `frame` could not be opened.
    FileOpenFailed { frame: usize },
    /// The file of the frame `frame` does not hold point records.
    ParseFailed { frame: usize },
    /// The viewer did not take the record of the frame `frame`.
    SinkTransmissionFailed { frame: usize },
}

impl PlaybackError {
    /// The words that name the kind of failure.
    pub open spec fn spec_message(self) -> Seq<char> {
        match self {
            PlaybackError::DirectoryUnreadable => "Failed to read directory"@,
            PlaybackError::FileOpenFailed { .. } => "Error opening file"@,
            PlaybackError::ParseFailed { .. } => "Error reading points"@,
            PlaybackError::SinkTransmissionFailed { .. } => "Error sending points"@,
        }
    }

    /// The words that name the kind of failure, for a report.
    pub fn message(&self) -> (text: &'static str)
        ensures
            text@ == self.spec_message(),
    {
        match self {
            PlaybackError::DirectoryUnreadable => "Failed to read directory",
            PlaybackError::FileOpenFailed { .. } => "Error opening file",
            PlaybackError::ParseFailed { .. } => "Error reading points",
            PlaybackError::SinkTransmissionFailed { .. } => "Error sending points",
        }
    }
}

/// A piece of work for the player.
#[derive(Clone, Copy, Debug, PartialEq, Eq, Structural)]
pub enum Action {
    /// List the directory and resolve the frame paths.
    List,
    /// Read the points of the frame at this place in the playing order.
    Load(usize),
    /// Colour the frame that was read and send it to the viewer.
    Send(usize),
    /// Rest for `FRAME_DELAY_MS`.
    Pause,
    /// Nothing is left to do: every frame was played.
    Finish,
    /// Give up and report the error.
    Abort(PlaybackError),
}

/// How a piece of work came out.
#[derive(Clone, Copy, Debug, PartialEq, Eq, Structural)]
pub enum Event {
    /// The directory was listed, and holds this many frames.
    Listed(usize),
    /// The directory could not be listed.
    ListingFailed,
    /// The points of the frame were read.
    Loaded,
    /// The file of the frame could not be opened.
    OpenFailed,
    /// The file of the frame could not be parsed.
    ParseFailed,
    /// The viewer took the record.
    Sent,
    /// The viewer did not take the record.
    SendFailed,
    /// The rest is over.
    Paused,
}

/// How far a run has come.
#[derive(Clone, Copy, Debug, PartialEq, Eq, Structural)]
pub enum Playback {
    /// Nothing was done yet.
    Listing,
    /// The frame `frame` of `frames` is to be read.
    Loading { frame: usize, frames: usize },
    /// The frame `frame` of `frames` was read and is to be sent.
    Sending { frame: usize, frames: usize },
    /// The frame `frame` of `frames` was sent; the player rests.
    Pausing { frame: usize, frames: usize },
    /// Every frame was played.
    Finished,
    /// The run ended early.
    Failed(PlaybackError),
}

impl Playback {
    /// Whether the frame at hand is one of the frames of the run.
    pub open spec fn wf(self) -> bool {
        match self {
            Playback::Loading { frame, frames } => frame < frames,
            Playback::Sending { frame, frames } => frame < frames,
            Playback::Pausing { frame, frames } => frame < frames,
            _ => true,
        }
    }

    /// The work that is due in this state.
    pub open spec fn spec_action(self) -> Action {
        match self {
            Playback::Listing => Action::List,
            Playback::Loading { frame, .. } => Action::Load(frame),
            Playback::Sending { frame, .. } => Action::Send(frame),
            Playback::Pausing { .. } => Action::Pause,
            Playback::Finished => Action::Finish,
            Playback::Failed(error) => Action::Abort(error),
        }
    }

    /// The state that follows this one on `event`.
    ///
    /// Each state moves on the outcomes of its own work and stays on every
    /// other event. A run that has finished or failed stays so.
    pub open spec fn spec_step(self, event: Event) -> Playback {
        match (self, event) {
            (Playback::Listing, Event::Listed(frames)) => if frames == 0 {
                Playback::Finished
            } else {
                Playback::Loading { frame: 0, frames }
            },
            (Playback::Listing, Event::ListingFailed) => Playback::Failed(
                PlaybackError::DirectoryUnreadable,
            ),
            (Playback::Loading { frame, frames }, Event::Loaded) => Playback::Sending {
                frame,
                frames,
            },
            (Playback::Loading { frame, .. }, Event::OpenFailed) => Playback::Failed(
                PlaybackError::FileOpenFailed { frame },
            ),
            (Playback::Loading { frame, .. }, Event::ParseFailed) => Playback::Failed(
                PlaybackError::ParseFailed { frame },
            ),
            (Playback::Sending { frame, frames }, Event::Sent) => Playback::Pausing {
                frame,
                frames,
            },
            (Playback::Sending { frame, .. }, Event::SendFailed) => Playback::Failed(
                PlaybackError::SinkTransmissionFailed { frame },
            ),
            (Playback::Pausing { frame, frames }, Event::Paused) => if frame + 1 < frames {
                Playback::Loading { frame: (frame + 1) as usize, frames }
            } else {
                Playback::Finished
            },
            _ => self,
        }
    }

    /// The state that a run is in after the events `events`, taken one
    /// after the other from this state.
    pub open spec fn after(self, events: Seq<Event>) -> Playback
        decreases events.len(),
    {
        if events.len() == 0 {
            self
        } else {
            self.spec_step(events.first()).after(events.drop_first())
        }
    }

    /// Whether the run is over, with or without an error.
    pub open spec fn is_over(self) -> bool {
        self is Finished || self is Failed
    }

    /// A run that is over stays as it is, whatever is reported to it.
    pub proof fn lemma_over_is_final(self, events: Seq<Event>)
        requires
            self.is_over(),
        ensures
            self.after(events) == self,
        decreases events.len(),
    {
        if events.len() > 0 {
            self.lemma_over_is_final(events.drop_first());
        }
    }

    /// Where the directory cannot be listed the run fails with
    /// `DirectoryUnreadable` at once and stays so: whatever is reported
    /// after, the work that is due is to give up with this error, and
    /// never to read or send a frame.
    pub proof fn lemma_unreadable_directory_ends_run(events: Seq<Event>)
        requires
            events.len() > 0,
            events[0] == Event::ListingFailed,
        ensures
            Playback::Listing.after(events) == Playback::Failed(PlaybackError::DirectoryUnreadable),
            Playback::Listing.after(events).spec_action() == Action::Abort(
                PlaybackError::DirectoryUnreadable,
            ),
    {
        Playback::Failed(PlaybackError::DirectoryUnreadable).lemma_over_is_final(
            events.drop_first(),
        );
    }

    /// The first failure ends the run: from a state in which a frame is
    /// read or sent, a failure of that work leads to a state that is over,
    /// and the work that is due after it is to give up.
    pub proof fn lemma_fails_fast(self, event: Event)
        requires
            self is Loading && (event == Event::OpenFailed || event == Event::ParseFailed)
                || self is Sending && event == Event::SendFailed,
        ensures
            self.spec_step(event) is Failed,
            self.spec_step(event).spec_action() is Abort,
    {
    }

    /// The events of `count` frames that are read, sent and rested after
    /// without a failure.
    pub open spec fn smooth(count: nat) -> Seq<Event>
        decreases count,
    {
        if count == 0 {
            Seq::empty()
        } else {
            seq![Event::Loaded, Event::Sent, Event::Paused] + Self::smooth((count - 1) as nat)
        }
    }

    /// A run without a failure plays every frame that is left and then
    /// finishes.
    pub proof fn lemma_smooth_run_finishes(frame: usize, frames: usize)
        requires
            frame < frames,
        ensures
            (Playback::Loading { frame, frames }).after(Self::smooth((frames - frame) as nat))
                == Playback::Finished,
        decreases frames - frame,
    {
        let start = Playback::Loading { frame, frames };
        let left = (frames - frame) as nat;
        let rest = Self::smooth((left - 1) as nat);
        let events = Self::smooth(left);
        let one = seq![Event::Loaded, Event::Sent, Event::Paused];
        assert(events == one + rest);
        let e1 = events.drop_first();
        let e2 = e1.drop_first();
        let e3 = e2.drop_first();
        assert(e3 =~= rest);
        assert(events.first() == Event::Loaded);
        assert(e1.first() == Event::Sent);
        assert(e2.first() == Event::Paused);
        let s1 = start.spec_step(Event::Loaded);
        let s2 = s1.spec_step(Event::Sent);
        let s3 = s2.spec_step(Event::Paused);
        assert(start.after(events) == s1.after(e1));
        assert(s1.after(e1) == s2.after(e2));
        assert(s2.after(e2) == s3.after(e3));
        if frame + 1 < frames {
            Self::lemma_smooth_run_finishes((frame + 1) as usize, frames);
        } else {
            assert(rest =~= Seq::<Event>::empty());
        }
    }

    /// A run before its first step.
    pub fn new() -> (start: Playback)
        ensures
            start == Playback::Listing,
    {
        Playback::Listing
    }

    /// The work that is due.
    pub fn action(&self) -> (due: Action)
        ensures
            due == self.spec_action(),
    {
        match *self {
            Playback::Listing => Action::List,
            Playback::Loading { frame, .. } => Action::Load(frame),
            Playback::Sending { frame, .. } => Action::Send(frame),
            Playback::Pausing { .. } => Action::Pause,
            Playback::Finished => Action::Finish,
            Playback::Failed(error) => Action::Abort(error),
        }
    }

    /// Takes the outcome of the work that was due and moves on.
    ///
    /// After the listing comes the first frame, or the end where there is
    /// no frame. A frame is read, then sent, then rested after, and then
    /// the next frame is read, or the run is finished after the last. A
    /// failure of any piece of work ends the run with its error. An event
    /// that is no outcome of the work that was due changes nothing.
    pub fn step(self, event: Event) -> (next: Playback)
        ensures
            next == self.spec_step(event),
            self.wf() ==> next.wf(),
    {
        match self {
            Playback::Listing => match event {
                Event::Listed(frames) => if frames == 0 {
                    Playback::Finished
                } else {
                    Playback::Loading { frame: 0, frames }
                },
                Event::ListingFailed => Playback::Failed(PlaybackError::DirectoryUnreadable),
                _ => self,
            },
            Playback::Loading { frame, frames } => match event {
                Event::Loaded => Playback::Sending { frame, frames },
                Event::OpenFailed => Playback::Failed(PlaybackError::FileOpenFailed { frame }),
                Event::ParseFailed => Playback::Failed(PlaybackError::ParseFailed { frame }),
                _ => self,
            },
            Playback::Sending { frame, frames } => match event {
                Event::Sent => Playback::Pausing { frame, frames },
                Event::SendFailed => Playback::Failed(
                    PlaybackError::SinkTransmissionFailed { frame },
                ),
                _ => self,
            },
            Playback::Pausing { frame, frames } => match event {
                Event::Paused => if frame < frames && frame + 1 < frames {
                    Playback::Loading { frame: frame + 1, frames }
                } else {
                    Playback::Finished
                },
                _ => self,
            },
            Playback::Finished => self,
            Playback::Failed(_) => self,
        }
    }
}

} // verus!

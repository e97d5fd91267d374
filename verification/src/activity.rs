//! What an activity reports when it ends, and the loop modes a playlist
//! panel can cycle through.

use vstd::prelude::*;

verus! {

use vstd::string::StringExecFns;

/// Why the run loop ended.
#[derive(Clone, Copy, PartialEq, Eq, Structural, Debug)]
pub enum ExitReason {
    Quit,
}

/// The life cycle of one screenful of the client.  The front end
/// implements it: created once, drawn every tick, asked after each tick
/// whether it wants to end, and destroyed when it does.
pub trait Activity {
    /// Initializes the activity's state; called once before the first draw.
    fn on_create(&mut self);

    /// Refreshes the interface; called every tick.
    fn on_draw(&mut self);

    /// Reports whether the activity wants the run loop to end, and why.
    fn will_umount(&self) -> Option<&ExitReason>;

    /// Releases the activity's resources; called once after the loop ends.
    fn on_destroy(&mut self);
}

/// How a playlist repeats.
#[derive(Clone, Copy, PartialEq, Eq, Structural, Debug)]
pub enum Loop {
    Single,
    Playlist,
    Queue,
}

impl Loop {
    /// The text shown for the mode.
    pub fn display_text(&self) -> (r: String)
        ensures
            r@ == match *self {
                Loop::Single => "single loop"@,
                Loop::Playlist => "loop"@,
                Loop::Queue => "queue"@,
            },
    {
        match self {
            Loop::Single => String::from_str("single loop"),
            Loop::Playlist => String::from_str("loop"),
            Loop::Queue => String::from_str("queue"),
        }
    }
}

} // verus!

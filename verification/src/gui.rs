//! The state behind the example window of the graphical interface: a button that turns a
//! greeting on and off.
use vstd::prelude::*;

verus! {

/// The example window's state: whether the greeting shows.
pub struct Example {
    ciao: bool,
}

impl View for Example {
    type V = bool;

    closed spec fn view(&self) -> bool {
        self.ciao
    }
}

impl Default for Example {
    /// The greeting hidden.
    fn default() -> (example: Self)
        ensures
            !example@,
    {
        Example { ciao: false }
    }
}

/// Whether the greeting shows after a frame that began with it `shown` and in which the
/// button was `clicked` or not.
pub open spec fn after_frame(shown: bool, clicked: bool) -> bool {
    if clicked {
        !shown
    } else {
        shown
    }
}

impl Example {
    /// The window's title.
    pub fn name(&self) -> (name: &'static str)
        ensures
            name@ == "Example"@,
    {
        "Example"
    }

    /// The state after a frame in which the button was `clicked` or not: a click turns the
    /// greeting on or off.
    pub fn on_button(&mut self, clicked: bool)
        ensures
            final(self)@ == after_frame(old(self)@, clicked),
    {
        if clicked {
            self.ciao = !self.ciao;
        }
    }

    /// The label the window shows below the button, if any.
    pub fn label(&self) -> (label: Option<&'static str>)
        ensures
            label is Some <==> self@,
            label is Some ==> label.unwrap()@ == "Ciao"@,
    {
        if self.ciao {
            Some("Ciao")
        } else {
            None
        }
    }
}

/// Two clicks of the button leave the greeting as it was, and a frame without a click
/// changes nothing.
pub proof fn lemma_two_clicks_restore(shown: bool)
    ensures
        after_frame(after_frame(shown, true), true) == shown,
        after_frame(shown, false) == shown,
{
}

} // verus!

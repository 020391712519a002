//! System media controls: what a person pressed, in the app's own terms.
//!
//! The platform's events reach the library as a [`MediaEvent`]; the shell
//! translates the platform crate's event into one.

use vstd::prelude::*;

verus! {

/// What a person asked for by pressing a key or a Control Center button.
///
/// Five, not six: the shell's stop forgets what was playing, and no hardware
/// key means that.
#[derive(Clone, Copy, Debug, PartialEq, Eq)]
pub enum Press {
    Play,
    Pause,
    Toggle,
    Next,
    Previous,
}

impl Press {
    pub open spec fn of_number(press: i32) -> Option<Press> {
        if press == 0 {
            Some(Press::Play)
        } else if press == 1 {
            Some(Press::Pause)
        } else if press == 2 {
            Some(Press::Toggle)
        } else if press == 3 {
            Some(Press::Next)
        } else if press == 4 {
            Some(Press::Previous)
        } else {
            None
        }
    }

    /// From the integer the Android service sends. The order is the
    /// contract: inserting a variant above `Previous` silently remaps every
    /// button.
    pub fn from_i32(press: i32) -> (r: Option<Self>)
        ensures
            r == Self::of_number(press),
    {
        match press {
            0 => Some(Press::Play),
            1 => Some(Press::Pause),
            2 => Some(Press::Toggle),
            3 => Some(Press::Next),
            4 => Some(Press::Previous),
            _ => None,
        }
    }
}

/// A platform media event, as far as this app tells them apart.
#[derive(Clone, Copy, Debug, PartialEq, Eq)]
pub enum MediaEvent {
    Play,
    Pause,
    Toggle,
    Next,
    Previous,
    Stop,
    /// Seek, set-position, open-URI, raise, quit and anything newer: no
    /// answer here yet.
    Other,
}

pub open spec fn press_for(event: MediaEvent) -> Option<Press> {
    match event {
        MediaEvent::Play => Some(Press::Play),
        MediaEvent::Pause => Some(Press::Pause),
        MediaEvent::Toggle => Some(Press::Toggle),
        MediaEvent::Next => Some(Press::Next),
        MediaEvent::Previous => Some(Press::Previous),
        MediaEvent::Stop => None,
        MediaEvent::Other => None,
    }
}

/// Translate a media event into a [`Press`], or `None` for one this app has
/// no answer for.
///
/// Stop is not Pause: the shell's stop forgets what was playing, and
/// answering a stop with a pause would leave the transport claiming a track
/// the person has finished with.
pub fn press_of(event: &MediaEvent) -> (r: Option<Press>)
    ensures
        r == press_for(*event),
{
    match event {
        MediaEvent::Play => Some(Press::Play),
        MediaEvent::Pause => Some(Press::Pause),
        MediaEvent::Toggle => Some(Press::Toggle),
        MediaEvent::Next => Some(Press::Next),
        MediaEvent::Previous => Some(Press::Previous),
        MediaEvent::Stop => None,
        MediaEvent::Other => None,
    }
}

} // verus!

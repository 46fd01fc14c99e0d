use vstd::prelude::*;

verus! {

/// What the watcher does with a file system event.
#[derive(Debug, PartialEq, Eq, Structural)]
pub enum WatchAction {
    /// None of the event's paths is a file: say so and wait.
    NotAFile,
    /// The event is no modification, creation or removal: say so and wait.
    NotAValidEvent,
    /// Publish the wiki again.
    Publish,
}

/// What to do with an event: publish again where it touches a file and
/// modifies, creates or removes something.
pub open spec fn watch_action_of(touches_a_file: bool, is_modify: bool, is_create: bool, is_remove: bool) -> WatchAction {
    if !touches_a_file {
        WatchAction::NotAFile
    } else if !(is_modify || is_create || is_remove) {
        WatchAction::NotAValidEvent
    } else {
        WatchAction::Publish
    }
}

/// What to do with a file system event: `touches_a_file` says whether one of
/// its paths is a file, the others which kind of event it is.
pub fn watch_action(touches_a_file: bool, is_modify: bool, is_create: bool, is_remove: bool) -> (r: WatchAction)
    ensures
        r == watch_action_of(touches_a_file, is_modify, is_create, is_remove),
{
    if !touches_a_file {
        return WatchAction::NotAFile;
    }
    let valid_event = is_modify || is_create || is_remove;
    if !valid_event {
        return WatchAction::NotAValidEvent;
    }
    WatchAction::Publish
}

} // verus!

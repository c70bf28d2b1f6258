use vstd::prelude::*;
use std::sync::mpsc::{Receiver, Sender};

verus! {

/// The sending half of a channel of `std::sync::mpsc`, carried through
/// unopened.
#[verifier::external_type_specification]
#[verifier::external_body]
#[verifier::reject_recursive_types(T)]
pub struct ExSender<T>(Sender<T>);

/// The receiving half of a channel of `std::sync::mpsc`, carried through
/// unopened.
#[verifier::external_type_specification]
#[verifier::external_body]
#[verifier::reject_recursive_types(T)]
pub struct ExReceiver<T>(Receiver<T>);

/// Calls `std::sync::mpsc::channel`: a new channel, returned as its two
/// halves. Nothing is stated of them: they are carried, never opened.
#[verifier::external_body]
pub(crate) fn new_channel<T>() -> (Sender<T>, Receiver<T>) {
    std::sync::mpsc::channel()
}

/// Calls `Sender::send` for a game event and panics where the receiver is
/// gone. Nothing is stated of it: no `GameEvent` value exists to send.
#[verifier::external_body]
pub(crate) fn send_event(sender: &Sender<crate::game::GameEvent>, event: crate::game::GameEvent) {
    sender.send(event).expect("Wasn't able to send event");
}

} // verus!

//! The broker side of the add-a-shade form: which request each of the form's
//! asks sends to the state task, what the form is told of the answer, and
//! which part of the form a chain of effects leaves to be restated.

use vstd::prelude::*;

use crate::api::Reply;
use crate::mqtt::{refusal_message, SetupMessage};
use crate::shade::ShadeId;

verus! {

/// What the form asks the state task to do.
#[derive(Clone, Copy, Debug, PartialEq, Eq, Structural)]
pub enum Ask {
    /// Create a shade from the draft.
    Create,
    /// Send the pairing burst for a shade.
    Pair(ShadeId),
    /// Record that the operator watched the shade move.
    Confirm(ShadeId),
    /// Remove a shade whose setup was abandoned.
    Abandon(ShadeId),
    /// Apply the draft's fields to a shade.
    Amend(ShadeId),
}

/// The request an ask becomes.
#[derive(Clone, Copy, Debug, PartialEq, Eq, Structural)]
pub enum FormRequest {
    AddShade,
    Pair(ShadeId),
    ConfirmPairing(ShadeId),
    RemoveShade(ShadeId),
    ReconfigureShade(ShadeId),
}

/// What the form is told.
#[derive(Clone, Copy, Debug, PartialEq, Eq, Structural)]
pub enum SetupInput {
    Created(ShadeId),
    Done,
    Refused(SetupMessage),
}

/// The request an ask sends: the same edits the web surface makes, so the
/// form is refused by exactly what that surface is refused by.
pub fn request_of(ask: Ask) -> (request: FormRequest)
    ensures
        request == (match ask {
            Ask::Create => FormRequest::AddShade,
            Ask::Pair(id) => FormRequest::Pair(id),
            Ask::Confirm(id) => FormRequest::ConfirmPairing(id),
            Ask::Abandon(id) => FormRequest::RemoveShade(id),
            Ask::Amend(id) => FormRequest::ReconfigureShade(id),
        }),
{
    match ask {
        Ask::Create => FormRequest::AddShade,
        Ask::Pair(id) => FormRequest::Pair(id),
        Ask::Confirm(id) => FormRequest::ConfirmPairing(id),
        Ask::Abandon(id) => FormRequest::RemoveShade(id),
        Ask::Amend(id) => FormRequest::ReconfigureShade(id),
    }
}

/// What the form is told of the state task's answer: a creation names the
/// shade, a confirmation completes, any other success moves nothing on, a
/// refusal is said in the form's own words, and silence is a refusal.
pub fn setup_answer(ask: Ask, reply: Option<Reply>) -> (input: Option<SetupInput>)
    ensures
        input == (match reply {
            Some(Reply::Created(id)) => Some(SetupInput::Created(id)),
            Some(Reply::Done) => if ask is Confirm { Some(SetupInput::Done) } else { None },
            Some(Reply::Refused(code)) => Some(SetupInput::Refused(crate::mqtt::refusal_for(code))),
            _ => Some(SetupInput::Refused(SetupMessage::Refused)),
        }),
{
    match reply {
        Some(Reply::Created(id)) => Some(SetupInput::Created(id)),
        Some(Reply::Done) => match ask {
            Ask::Confirm(_) => Some(SetupInput::Done),
            _ => None,
        },
        Some(Reply::Refused(code)) => Some(SetupInput::Refused(refusal_message(code))),
        _ => Some(SetupInput::Refused(SetupMessage::Refused)),
    }
}

/// Which part of the form is published again.
#[derive(Clone, Copy, Debug, PartialEq, Eq, Structural)]
pub enum Form {
    /// Its entities, its message and its values.
    Open,
    /// Its values and message only.
    Values,
    /// Its entities are retired.
    Close,
}

/// How a chain of effects changed the form.
#[derive(Clone, Copy, Debug, PartialEq, Eq, Structural)]
pub enum FormChange {
    Open,
    Close,
    Unchanged,
}

/// What a chain of effects leaves to restate: a close anywhere in it wins,
/// then an open; otherwise an open form has its values restated and a closed
/// one is left alone.
pub fn form_after(changes: &[FormChange], open_now: bool) -> (form: Option<Form>)
    ensures
        form == (if exists|i: int| 0 <= i < changes@.len() && changes@[i] == FormChange::Close {
            Some(Form::Close)
        } else if exists|i: int| 0 <= i < changes@.len() && changes@[i] == FormChange::Open {
            Some(Form::Open)
        } else if open_now {
            Some(Form::Values)
        } else {
            None::<Form>
        }),
{
    let mut opened = false;
    let mut closed = false;
    let mut index: usize = 0;
    while index < changes.len()
        invariant
            index <= changes@.len(),
            closed == exists|i: int| 0 <= i < index && changes@[i] == FormChange::Close,
            opened == exists|i: int| 0 <= i < index && changes@[i] == FormChange::Open,
        decreases changes.len() - index,
    {
        match changes[index] {
            FormChange::Open => opened = true,
            FormChange::Close => closed = true,
            FormChange::Unchanged => {},
        }
        proof {
            assert(changes@[index as int] == changes[index as int]);
        }
        index += 1;
    }
    if closed {
        Some(Form::Close)
    } else if opened {
        Some(Form::Open)
    } else if open_now {
        Some(Form::Values)
    } else {
        None
    }
}

} // verus!

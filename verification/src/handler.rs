//! Recording in the transcript a message the user sent and what came of it.

use vstd::prelude::*;
use crate::app::{App, AppView, Message};

verus! {

/// Records in the transcript the message the user sent, before it goes to the
/// model.
pub fn record_user_message(app: &mut App, content: &String)
    ensures
        final(app)@ == (AppView {
            messages: old(app)@.messages.push(Message::User(*content)),
            ..old(app)@
        }),
{
    app.push_message(Message::User(content.clone()));
}

/// Records in the transcript what came of a chat: the model's reply, or the
/// error's message after `"Error: "`.
pub fn record_chat_outcome(app: &mut App, outcome: Result<String, String>)
    ensures
        final(app)@ == (AppView { messages: final(app)@.messages, ..old(app)@ }),
        final(app)@.messages.len() == old(app)@.messages.len() + 1,
        final(app)@.messages.take(old(app)@.messages.len() as int) == old(app)@.messages,
        match outcome {
            Ok(reply) => final(app)@.messages.last() == Message::Assistant(reply),
            Err(e) => final(app)@.messages.last() matches Message::Error(text)
                && text@ == "Error: "@ + e@,
        },
{
    match outcome {
        Ok(result) => app.push_message(Message::Assistant(result)),
        Err(e) => {
            let mut text = "Error: ".to_owned();
            text.append(e.as_str());
            app.push_message(Message::Error(text));
        },
    }
}

} // verus!

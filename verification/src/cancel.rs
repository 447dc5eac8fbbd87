//! Reading a trainer's cancellation order with a language model.
use vstd::prelude::*;
use crate::calendar::{Date, Time};
use crate::models::{cancel_model_name, CancelTrainingAiRequest};

verus! {

/// Where and how cancellation orders are sent to the language model: the
/// instructions it gets, its address and the key that opens it.
pub struct CancelRepo {
    pub promt: String,
    pub url: String,
    pub key: String,
}

/// The user message that carries a trainer's order, with the date and the
/// time it was sent.
pub open spec fn order_message(user_message: Seq<char>, date: Date, time: Time) -> Seq<char> {
    "Сообщение тренера: "@ + user_message + " \n Сегодняшняя дата: "@ + date.text()
        + " \n Время отправки сообщения: "@ + time.text() + " \n"@
}

impl CancelRepo {
    /// The request that asks the language model to read a trainer's order,
    /// sent on `current_date` at `current_time`: the instructions as system
    /// message, the order with its date and time as user message.
    pub fn construct_ai_request(&self, user_message: String, current_date: Date, current_time: Time) -> (res: CancelTrainingAiRequest)
        requires
            current_date.wf(),
            current_time.wf(),
        ensures
            res.model@ == cancel_model_name(),
            res.messages@.len() == 2,
            res.messages@[0].role@ == "system"@,
            res.messages@[0].content@ == self.promt@,
            res.messages@[1].role@ == "user"@,
            res.messages@[1].content@ == order_message(user_message@, current_date, current_time),
            !res.stream,
    {
        let mut message = String::from_str("Сообщение тренера: ");
        message.append(user_message.as_str());
        message.append(" \n Сегодняшняя дата: ");
        message.append(current_date.to_text().as_str());
        message.append(" \n Время отправки сообщения: ");
        message.append(current_time.to_text().as_str());
        message.append(" \n");
        CancelTrainingAiRequest::new(self.promt.clone(), message)
    }
}

} // verus!

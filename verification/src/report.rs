//! The messages sent after a run.

use vstd::prelude::*;

use crate::text::{join, joined, texts_view};

verus! {

/// The message on the statistics of the inputs.
pub fn stats_message(stats: &Vec<String>) -> (r: String)
    ensures
        r@ == "{\"stats\": "@ + joined(texts_view(stats@), "\n"@) + "}"@,
{
    let mut message = "{\"stats\": ".to_string();
    message.append(join(stats, "\n").as_str());
    message.append("}");
    message
}

/// The message on the errors of a run.
pub fn errors_message(errors: &str) -> (r: String)
    ensures
        r@ == "{\"errors\": \""@ + errors@ + "\"}"@,
{
    let mut message = "{\"errors\": \"".to_string();
    message.append(errors);
    message.append("\"}");
    message
}

} // verus!

//! The answers to the buttons of the distraction notice.

use crate::names::str_eq;
use vstd::prelude::*;
use vstd::string::StringExecFns;

verus! {

/// The answer to the button `action` pressed for the application
/// `app_name`, or the error for a button that does not exist.
pub open spec fn modal_answer(action: Seq<char>, app_name: Seq<char>) -> Result<Seq<char>, Seq<char>> {
    if action == "close_app"@ {
        Ok("Closed app: "@ + app_name)
    } else if action == "use_5_mins"@ {
        Ok("Allowing "@ + app_name + " for 5 minutes"@)
    } else if action == "show_again"@ {
        Ok("Will show modal again for "@ + app_name)
    } else {
        Err("Unknown action"@)
    }
}

/// Answers the button `action` of the distraction notice for `app_name`.
pub fn handle_distraction_modal_action(action: &str, app_name: &str) -> (answer: Result<String, String>)
    ensures
        match answer {
            Ok(text) => modal_answer(action@, app_name@) == Ok::<Seq<char>, Seq<char>>(text@),
            Err(text) => modal_answer(action@, app_name@) == Err::<Seq<char>, Seq<char>>(text@),
        },
{
    if str_eq(action, "close_app") {
        Ok(String::from_str("Closed app: ").concat(app_name))
    } else if str_eq(action, "use_5_mins") {
        Ok(String::from_str("Allowing ").concat(app_name).concat(" for 5 minutes"))
    } else if str_eq(action, "show_again") {
        Ok(String::from_str("Will show modal again for ").concat(app_name))
    } else {
        Err(String::from_str("Unknown action"))
    }
}

} // verus!

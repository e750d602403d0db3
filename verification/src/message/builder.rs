//! The setting a SIP message writer is built with.
use vstd::prelude::*;

verus! {

/// What a SIP message writer is built with: whether it checks a message
/// before writing it. This holds the setting only; the writing and the
/// checks need the full request and response types, which this library
/// does not define.
pub struct MessageBuilder {
    validate: bool,
}

impl View for MessageBuilder {
    type V = bool;

    /// Whether validation is on.
    closed spec fn view(&self) -> bool {
        self.validate
    }
}

impl MessageBuilder {
    /// A writer setting without checks.
    pub fn new() -> (b: MessageBuilder)
        ensures
            b@ == false,
    {
        MessageBuilder { validate: false }
    }

    /// A writer setting with checks exactly when `validate` is set.
    pub fn with_validation(validate: bool) -> (b: MessageBuilder)
        ensures
            b@ == validate,
    {
        MessageBuilder { validate }
    }
}

} // verus!

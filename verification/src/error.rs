use vstd::prelude::*;

verus! {

/// A failure reported by the DOM, with its message.
#[derive(Debug)]
pub struct AdapterError {
    msg: String,
}

impl AdapterError {
    pub closed spec fn message_spec(&self) -> Seq<char> {
        self.msg@
    }

    /// The error for a thrown JavaScript value, given the value's string
    /// content when it is a string.
    pub fn from_js_string(value: Option<String>) -> (e: Self)
        ensures
            e.message_spec() == (match value {
                Some(s) => s@,
                None => "Unknown error"@,
            }),
    {
        match value {
            Some(msg) => AdapterError { msg },
            None => AdapterError { msg: String::from_str("Unknown error") },
        }
    }

    pub fn message(&self) -> (m: &String)
        ensures
            m@ == self.message_spec(),
    {
        &self.msg
    }

    /// The error as it is displayed: its message on a line of its own.
    pub fn display_text(&self) -> (t: String)
        ensures
            t@ == self.message_spec() + "\n"@,
    {
        self.msg.clone().concat("\n")
    }
}

} // verus!

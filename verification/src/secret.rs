//! Text that must not be written to a log.
use vstd::prelude::*;

verus! {

/// A text that is shown as a marker. The type has no `Debug` of its own, so that no derived one can
/// print it.
#[derive(Clone, PartialEq, Eq)]
pub struct Secret {
    value: String,
}

impl View for Secret {
    type V = Seq<char>;

    closed spec fn view(&self) -> Seq<char> {
        self.value@
    }
}

/// The marker that stands for every secret.
pub open spec fn redaction() -> Seq<char> {
    "Secret(***)"@
}

impl Secret {
    /// Keep a text.
    pub fn new(value: String) -> (out: Secret)
        ensures
            out@ == value@,
    {
        Secret { value }
    }

    /// The text itself, for the place that has to send it.
    pub fn expose(&self) -> (out: &str)
        ensures
            out@ == self@,
    {
        self.value.as_str()
    }

    /// What is shown of the secret: the same marker, whatever the text.
    pub fn debug_text(&self) -> (out: String)
        ensures
            out@ == redaction(),
    {
        "Secret(***)".to_owned()
    }
}

/// What is shown of an optional secret.
pub open spec fn optional_redaction(present: bool) -> Seq<char> {
    if present {
        "Some(Secret(***))"@
    } else {
        "None"@
    }
}

/// Show an optional secret by its marker.
pub fn optional_debug_text(secret: &Option<Secret>) -> (out: String)
    ensures
        out@ == optional_redaction(secret is Some),
{
    match secret {
        Some(_) => "Some(Secret(***))".to_owned(),
        None => "None".to_owned(),
    }
}

} // verus!

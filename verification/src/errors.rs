use vstd::prelude::*;

verus! {

/// What went wrong: reading or writing files, the database, or watching.
#[derive(Debug)]
pub enum Error {
    FileAccess(String),
    DBAccess(String),
    NotifyError(String),
}

/// The text that describes an error.
pub open spec fn error_text(e: Error) -> Seq<char> {
    match e {
        Error::FileAccess(reason) => reason@,
        Error::DBAccess(reason) => reason@,
        Error::NotifyError(reason) => "Error with notify: "@ + reason@,
    }
}

impl Error {
    /// The text that describes the error: the reason, after
    /// `Error with notify: ` for an error of the watcher.
    pub fn to_string(&self) -> (r: String)
        ensures
            r@ == error_text(*self),
    {
        match self {
            Error::FileAccess(reason) => reason.clone(),
            Error::DBAccess(reason) => reason.clone(),
            Error::NotifyError(reason) => {
                let mut text = String::from_str("Error with notify: ");
                text.append(reason.as_str());
                text
            },
        }
    }
}

} // verus!

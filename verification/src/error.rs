//! Why an import was abandoned.

use vstd::prelude::*;

verus! {

/// A fault that aborts an import. None leaves anything of the run behind.
#[derive(Debug, Clone)]
pub enum ImportError {
    /// An episode file whose name carries no episode number.
    Classification { name: String },
    /// The dataset could not look a key up or store a row.
    Resolution,
    /// A directory or a file that could not be read.
    Read { name: String },
}

/// A fault, its names as characters.
pub enum ImportErrorView {
    Classification { name: Seq<char> },
    Resolution,
    Read { name: Seq<char> },
}

impl View for ImportError {
    type V = ImportErrorView;

    open spec fn view(&self) -> ImportErrorView {
        match self {
            ImportError::Classification { name } => ImportErrorView::Classification { name: name@ },
            ImportError::Resolution => ImportErrorView::Resolution,
            ImportError::Read { name } => ImportErrorView::Read { name: name@ },
        }
    }
}

impl ImportError {
    /// The reason in words.
    pub fn message(&self) -> (r: String)
        ensures
            r@ == message_of(self@),
    {
        match self {
            ImportError::Classification { name } => {
                let mut text = String::from_str("Invalid episode file name: ");
                text.append(name.as_str());
                text
            },
            ImportError::Resolution => String::from_str("Storage fault while importing"),
            ImportError::Read { name } => {
                let mut text = String::from_str("Could not read: ");
                text.append(name.as_str());
                text
            },
        }
    }
}

/// The fault in words.
pub open spec fn message_of(e: ImportErrorView) -> Seq<char> {
    match e {
        ImportErrorView::Classification { name } => "Invalid episode file name: "@ + name,
        ImportErrorView::Resolution => "Storage fault while importing"@,
        ImportErrorView::Read { name } => "Could not read: "@ + name,
    }
}

} // verus!

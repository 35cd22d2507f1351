//! How metadata is shown: as text or as JSON.

use vstd::prelude::*;
use vstd::string::*;

verus! {

/// What kind of thing a piece of metadata is about.
#[derive(Clone, Copy, Debug, PartialEq, Eq, Structural)]
pub enum ExportKind {
    Dir,
    File,
}

impl ExportKind {
    /// The kind's name.
    pub open spec fn name(self) -> Seq<char> {
        match self {
            ExportKind::Dir => "Dir"@,
            ExportKind::File => "File"@,
        }
    }

    /// The kind's name.
    pub fn as_str(&self) -> (r: &'static str)
        ensures
            r@ == self.name(),
    {
        match self {
            ExportKind::Dir => "Dir",
            ExportKind::File => "File",
        }
    }
}

/// The form in which metadata is printed.
#[derive(Clone, Copy, Debug, PartialEq, Eq, Structural)]
pub enum OutputForm {
    PrettyJson,
    Json,
    Text,
}

/// The form that the user asked for: pretty JSON wins over JSON, and text
/// is what is printed where neither is asked for.
pub fn output_form(json: bool, prettify: bool) -> (r: OutputForm)
    ensures
        r == (if prettify {
            OutputForm::PrettyJson
        } else if json {
            OutputForm::Json
        } else {
            OutputForm::Text
        }),
{
    if prettify {
        OutputForm::PrettyJson
    } else if json {
        OutputForm::Json
    } else {
        OutputForm::Text
    }
}

/// Metadata as text: its kind on a line of its own, then the metadata's own
/// text.
pub fn export_text(file_type: ExportKind, inner: &str) -> (r: String)
    ensures
        r@ == "type: "@ + file_type.name() + "\n"@ + inner@,
{
    let mut out = String::from_str("type: ");
    out.append(file_type.as_str());
    out.append("\n");
    out.append(inner);
    assert(out@ =~= "type: "@ + file_type.name() + "\n"@ + inner@);
    out
}

} // verus!

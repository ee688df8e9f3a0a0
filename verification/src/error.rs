//! The pipeline's error taxonomy. A parse error is fatal for the whole run;
//! every other kind is attributable to one card instance or one face.

use vstd::prelude::*;
use vstd::string::StringExecFns;

verus! {

/// What can go wrong, with the context that names the culprit.
#[derive(Debug)]
pub enum PipelineError {
    /// A malformed decklist line; fatal before anything is fetched.
    Parse { line: String },
    /// The database knows no card of this name.
    NotFound { prefix: String, name: String },
    /// The card exists but its layout is none the face expansion supports.
    UnsupportedLayout { name: String, layout: String },
    /// A required face carries no artwork reference.
    MissingArtwork { name: String },
    /// The artwork bytes of this card did not decode as a PNG.
    Decode { name: String },
    /// The artwork of this card could not be fetched.
    Fetch { name: String },
    /// The rendered image of this card could not be written.
    Persist { name: String },
}

/// The mathematical shadow of `PipelineError`.
pub ghost enum ErrV {
    Parse { line: Seq<char> },
    NotFound { prefix: Seq<char>, name: Seq<char> },
    UnsupportedLayout { name: Seq<char>, layout: Seq<char> },
    MissingArtwork { name: Seq<char> },
    Decode { name: Seq<char> },
    Fetch { name: Seq<char> },
    Persist { name: Seq<char> },
}

/// The report each error kind carries, naming its culprit.
pub open spec fn spec_message(e: ErrV) -> Seq<char> {
    match e {
        ErrV::Parse { line } => "Invalid card line: "@ + line,
        ErrV::NotFound { prefix, name } => "Card "@ + prefix + " "@ + name + " was not found"@,
        ErrV::UnsupportedLayout { name, layout } => "Card "@ + name
            + " has an unsupported layout: "@ + layout,
        ErrV::MissingArtwork { name } => "Card "@ + name + " does not have image uris"@,
        ErrV::Decode { name } => "Artwork of card "@ + name + " is not a valid PNG"@,
        ErrV::Fetch { name } => "Artwork of card "@ + name + " could not be fetched"@,
        ErrV::Persist { name } => "Image of card "@ + name + " could not be written"@,
    }
}

impl PipelineError {
    /// The human-readable report of this error.
    pub fn message(&self) -> (r: String)
        ensures
            r@ == spec_message(self@),
    {
        match self {
            PipelineError::Parse { line } => {
                let mut r = "Invalid card line: ".to_owned();
                r.append(line.as_str());
                r
            },
            PipelineError::NotFound { prefix, name } => {
                let mut r = "Card ".to_owned();
                r.append(prefix.as_str());
                r.append(" ");
                r.append(name.as_str());
                r.append(" was not found");
                r
            },
            PipelineError::UnsupportedLayout { name, layout } => {
                let mut r = "Card ".to_owned();
                r.append(name.as_str());
                r.append(" has an unsupported layout: ");
                r.append(layout.as_str());
                r
            },
            PipelineError::MissingArtwork { name } => {
                let mut r = "Card ".to_owned();
                r.append(name.as_str());
                r.append(" does not have image uris");
                r
            },
            PipelineError::Decode { name } => {
                let mut r = "Artwork of card ".to_owned();
                r.append(name.as_str());
                r.append(" is not a valid PNG");
                r
            },
            PipelineError::Fetch { name } => {
                let mut r = "Artwork of card ".to_owned();
                r.append(name.as_str());
                r.append(" could not be fetched");
                r
            },
            PipelineError::Persist { name } => {
                let mut r = "Image of card ".to_owned();
                r.append(name.as_str());
                r.append(" could not be written");
                r
            },
        }
    }
}

impl View for PipelineError {
    type V = ErrV;

    open spec fn view(&self) -> ErrV {
        match self {
            PipelineError::Parse { line } => ErrV::Parse { line: line@ },
            PipelineError::NotFound { prefix, name } => ErrV::NotFound {
                prefix: prefix@,
                name: name@,
            },
            PipelineError::UnsupportedLayout { name, layout } => ErrV::UnsupportedLayout {
                name: name@,
                layout: layout@,
            },
            PipelineError::MissingArtwork { name } => ErrV::MissingArtwork { name: name@ },
            PipelineError::Decode { name } => ErrV::Decode { name: name@ },
            PipelineError::Fetch { name } => ErrV::Fetch { name: name@ },
            PipelineError::Persist { name } => ErrV::Persist { name: name@ },
        }
    }
}

} // verus!

//! The decisions of a run: what is written or reported for each thing that
//! the walk and the reading of files bring.

use crate::filter::{spec_text, FileEntry};
use crate::format::{print_file, spec_print_file, OutputFormat, SequenceCounter};
use vstd::prelude::*;

verus! {

/// What the walk or the reading of a file brought.
#[derive(Clone, Debug)]
pub enum Event {
    /// A file that passed the filter was read as text.
    Content { entry: FileEntry, content: String },
    /// A file that passed the filter does not hold valid text.
    NotText { entry: FileEntry },
    /// A file that passed the filter could not be read.
    ReadFailed { entry: FileEntry, reason: String },
    /// The walk itself reported an error.
    WalkFailed { reason: String },
}

/// What the caller does next.
#[derive(Clone, Debug)]
pub enum Action {
    /// Write this text to the output.
    Write(String),
    /// Report this warning and go on.
    Warn(String),
}

/// The warning for a file that does not hold valid text.
pub open spec fn spec_not_text_warning(path: Seq<char>) -> Seq<char> {
    "Warning: Skipping file "@ + path + " - Not valid UTF-8."@
}

/// The warning for a file that could not be read.
pub open spec fn spec_read_warning(path: Seq<char>, reason: Seq<char>) -> Seq<char> {
    "Warning: Skipping file "@ + path + " - Error reading: "@ + reason
}

/// The warning for an error of the walk.
pub open spec fn spec_walk_warning(reason: Seq<char>) -> Seq<char> {
    "Warning: Error during directory walk: "@ + reason
}

/// Whether `action` is what `event` asks for, with `index` the next index of
/// the counter: content is rendered and written, everything else is a
/// warning.
pub open spec fn spec_step(
    event: Event,
    format: OutputFormat,
    line_numbers: bool,
    index: nat,
    action: Action,
) -> bool {
    match event {
        Event::Content { entry, content } => action matches Action::Write(text) && text@
            == spec_print_file(
            entry.path@,
            spec_text(entry.extension),
            content@,
            format,
            line_numbers,
            index,
        ),
        Event::NotText { entry } => action matches Action::Warn(text) && text@
            == spec_not_text_warning(entry.path@),
        Event::ReadFailed { entry, reason } => action matches Action::Warn(text) && text@
            == spec_read_warning(entry.path@, reason@),
        Event::WalkFailed { reason } => action matches Action::Warn(text) && text@
            == spec_walk_warning(reason@),
    }
}

/// Whether `event` takes an index from the counter: content does, in the
/// tagged format.
pub open spec fn spec_takes_index(event: Event, format: OutputFormat) -> bool {
    event is Content && format == OutputFormat::Cxml
}

/// Decides what follows an event. Content is rendered, and in the tagged
/// format it takes the next index; a file that is no text, a failed read and
/// an error of the walk each give a warning and leave the counter alone, so
/// that the run goes on with the next entry.
pub fn step(
    counter: &mut SequenceCounter,
    format: OutputFormat,
    line_numbers: bool,
    event: &Event,
) -> (action: Action)
    requires
        spec_takes_index(*event, format) ==> old(counter).spec_next() < usize::MAX,
    ensures
        spec_step(*event, format, line_numbers, old(counter).spec_next(), action),
        final(counter).spec_next() == old(counter).spec_next() + (if spec_takes_index(
            *event,
            format,
        ) {
            1nat
        } else {
            0nat
        }),
{
    match event {
        Event::Content { entry, content } => {
            Action::Write(print_file(entry, content.as_str(), format, line_numbers, counter))
        },
        Event::NotText { entry } => {
            let mut text = String::from_str("Warning: Skipping file ");
            text.append(entry.path.as_str());
            text.append(" - Not valid UTF-8.");
            Action::Warn(text)
        },
        Event::ReadFailed { entry, reason } => {
            let mut text = String::from_str("Warning: Skipping file ");
            text.append(entry.path.as_str());
            text.append(" - Error reading: ");
            text.append(reason.as_str());
            Action::Warn(text)
        },
        Event::WalkFailed { reason } => {
            let mut text = String::from_str("Warning: Error during directory walk: ");
            text.append(reason.as_str());
            Action::Warn(text)
        },
    }
}

} // verus!

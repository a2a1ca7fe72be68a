use vstd::prelude::*;

verus! {

/// A descriptor of one input of the hosted function.
///
/// Each variant carries its default (and, for a slider, its bounds and step)
/// in textual form: the generator only ever renders these values into the
/// markup document, and the numeric type of the hosted function is chosen by
/// the caller, outside the library.
///
/// The model performs no validation. In particular a slider's bounds are
/// descriptive only: nothing requires `min <= initial_value <= max` or a
/// positive `step`, and the session host never re-checks a submitted value
/// against them.
pub enum Input {
    /// A numeric field, pre-filled with the given value.
    Number(String),
    /// A text field, pre-filled with the given value.
    Text(String),
    /// A bounded range control paired with a read-only display of its value.
    Slider { min: String, max: String, step: String, initial_value: String },
}

} // verus!

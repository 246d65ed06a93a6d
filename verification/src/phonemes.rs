//! The list of phonemes, which is kept in a RON file.

use ron::error::SpannedError;
use vstd::prelude::*;

verus! {

/// The error of the RON reader: what is wrong, and where.
#[verifier::external_type_specification]
#[verifier::external_body]
pub struct ExSpannedError(SpannedError);

/// The list of strings that `ron::from_str` reads out of a text, or `None` where
/// it reports an error.
pub uninterp spec fn ron_string_list(text: Seq<char>) -> Option<Seq<Seq<char>>>;

/// Calls `ron::from_str` for a list of strings. The text alone decides what comes
/// back: the strings that the reader finds, or an error. Nothing is said of which
/// error it is.
#[verifier::external_body]
fn read_string_list(text: &str) -> (parsed: Result<Vec<String>, SpannedError>)
    ensures
        match parsed {
            Ok(list) => ron_string_list(text@) == Some(list.deep_view()),
            Err(_) => ron_string_list(text@) is None,
        },
{
    ron::from_str::<Vec<String>>(text)
}

/// Why there are no phonemes.
#[derive(Debug, Clone, Copy, PartialEq, Eq, Structural)]
pub enum PhonemesError {
    /// The text is not a RON list of strings.
    NotAStringList,
}

/// Takes the phonemes out of what the RON reader gave.
pub fn phonemes_of(parsed: Result<Vec<String>, SpannedError>) -> (phonemes: Result<
    Vec<String>,
    PhonemesError,
>)
    ensures
        match parsed {
            Ok(list) => phonemes == Ok::<Vec<String>, PhonemesError>(list),
            Err(_) => phonemes == Err::<Vec<String>, PhonemesError>(PhonemesError::NotAStringList),
        },
{
    match parsed {
        Ok(list) => Ok(list),
        Err(_) => Err(PhonemesError::NotAStringList),
    }
}

/// Reads the phonemes out of the text of the phoneme file, in the order in which
/// the file lists them.
pub fn parse_phonemes(text: &str) -> (phonemes: Result<Vec<String>, PhonemesError>)
    ensures
        match ron_string_list(text@) {
            Some(list) => phonemes matches Ok(found) && found.deep_view() == list,
            None => phonemes == Err::<Vec<String>, PhonemesError>(PhonemesError::NotAStringList),
        },
{
    phonemes_of(read_string_list(text))
}

} // verus!

//! Names and locations that the user types.
use vstd::prelude::*;
use vstd::string::*;

use crate::model::{Location, LocationView};
use crate::text::chars_of;

verus! {

/// Why a name cannot be given to an entry.
#[derive(Debug, Clone, Copy, PartialEq, Eq, Structural)]
pub enum RenameError {
    /// There is no name.
    Empty,
    /// The name stands for a directory itself, or for its parent.
    Reserved,
    /// The name leads into another directory.
    Nested,
}

/// Why a location cannot be opened.
#[derive(Debug, Clone, Copy, PartialEq, Eq, Structural)]
pub enum LocationValidationError {
    /// Nothing was entered.
    Empty,
    /// The path does not start at the root.
    NotAbsolute,
    /// The place cannot be read.
    Inaccessible,
}

/// What is wrong with a name, if anything.
pub open spec fn rename_verdict(name: Seq<char>) -> Result<(), RenameError> {
    if name.len() == 0 {
        Err(RenameError::Empty)
    } else if name == "."@ || name == ".."@ {
        Err(RenameError::Reserved)
    } else if name.contains('/') {
        Err(RenameError::Nested)
    } else {
        Ok(())
    }
}

/// The sentence that tells a user what is wrong with a name.
pub open spec fn rename_error_text(error: RenameError) -> Seq<char> {
    match error {
        RenameError::Empty => "Enter a name"@,
        RenameError::Reserved => "This name is reserved"@,
        RenameError::Nested => "A name cannot contain a slash"@,
    }
}

/// The sentence that tells a user why a location is not opened.
pub open spec fn location_error_text(error: LocationValidationError) -> Seq<char> {
    match error {
        LocationValidationError::Empty => "Enter a location"@,
        LocationValidationError::NotAbsolute => "Enter an absolute path"@,
        LocationValidationError::Inaccessible => "This location cannot be opened"@,
    }
}

/// The place that a typed text names, or why it names none.
pub open spec fn typed_location(input: Seq<char>) -> Result<LocationView, LocationValidationError> {
    if input.len() == 0 {
        Err(LocationValidationError::Empty)
    } else if input[0] != '/' {
        Err(LocationValidationError::NotAbsolute)
    } else {
        Ok(LocationView::Local(vstd::utf8::encode_utf8(input)))
    }
}

impl RenameError {
    /// The sentence that tells a user what is wrong.
    pub fn message(&self) -> (text: String)
        ensures
            text@ == rename_error_text(*self),
    {
        match self {
            RenameError::Empty => "Enter a name".to_owned(),
            RenameError::Reserved => "This name is reserved".to_owned(),
            RenameError::Nested => "A name cannot contain a slash".to_owned(),
        }
    }
}

impl LocationValidationError {
    /// The sentence that tells a user what is wrong.
    pub fn message(&self) -> (text: String)
        ensures
            text@ == location_error_text(*self),
    {
        match self {
            LocationValidationError::Empty => "Enter a location".to_owned(),
            LocationValidationError::NotAbsolute => "Enter an absolute path".to_owned(),
            LocationValidationError::Inaccessible => "This location cannot be opened".to_owned(),
        }
    }
}

/// Whether a name can be given to an entry of a directory.
pub fn validate_rename(name: &str) -> (verdict: Result<(), RenameError>)
    ensures
        verdict == rename_verdict(name@),
{
    let chars = chars_of(name);
    proof {
        reveal_strlit(".");
        reveal_strlit("..");
    }
    if chars.len() == 0 {
        return Err(RenameError::Empty);
    }
    if chars.len() == 1 && chars[0] == '.' {
        assert(name@ =~= "."@);
        return Err(RenameError::Reserved);
    }
    if chars.len() == 2 && chars[0] == '.' && chars[1] == '.' {
        assert(name@ =~= ".."@);
        return Err(RenameError::Reserved);
    }
    let mut i: usize = 0;
    while i < chars.len()
        invariant
            chars@ == name@,
            name@.len() > 0,
            name@ != "."@,
            name@ != ".."@,
            i <= chars@.len(),
            forall|k: int| 0 <= k < i ==> name@[k] != '/',
        decreases chars@.len() - i,
    {
        if chars[i] == '/' {
            assert(name@.contains('/'));
            return Err(RenameError::Nested);
        }
        i += 1;
    }
    Ok(())
}

/// Reads a typed location. Nothing is looked up: only its form is judged.
pub fn parse_location(input: &str) -> (parsed: Result<Location, LocationValidationError>)
    ensures
        match parsed {
            Ok(location) => typed_location(input@) == Ok::<LocationView, LocationValidationError>(
                location@,
            ),
            Err(error) => typed_location(input@) == Err::<LocationView, LocationValidationError>(
                error,
            ),
        },
{
    let length: usize = input.unicode_len();
    if length == 0 {
        return Err(LocationValidationError::Empty);
    }
    if input.get_char(0) != '/' {
        return Err(LocationValidationError::NotAbsolute);
    }
    Ok(Location::Local(input.as_bytes_vec()))
}

} // verus!

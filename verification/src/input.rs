//! What the splitter is asked to work on.

use vstd::prelude::*;
use vstd::string::*;

verus! {

/// Why the options given do not name an input.
#[derive(Clone, Copy, Debug, PartialEq, Eq, Structural)]
pub enum ConfigurationError {
    /// Neither a directory nor a file was given.
    NoInput,
    /// Both a directory and a file were given.
    ConflictingInputs,
}

/// The one input path among the two options, of which exactly one must be given.
pub open spec fn selected_path(directory: Option<Seq<char>>, file: Option<Seq<char>>) -> Result<
    Seq<char>,
    ConfigurationError,
> {
    match (directory, file) {
        (Some(d), None) => Ok(d),
        (None, Some(f)) => Ok(f),
        (Some(_), Some(_)) => Err(ConfigurationError::ConflictingInputs),
        (None, None) => Err(ConfigurationError::NoInput),
    }
}

/// The characters of an optional string.
pub open spec fn text_of(s: Option<String>) -> Option<Seq<char>> {
    match s {
        Some(s) => Some(s@),
        None => None,
    }
}

/// Picks the input path from the directory option and the file option.
///
/// Exactly one of them must be given: with both or neither there is no input.
pub fn select_input_path(directory: Option<String>, file: Option<String>) -> (selected: Result<
    String,
    ConfigurationError,
>)
    ensures
        match selected_path(text_of(directory), text_of(file)) {
            Ok(path) => selected is Ok && selected->Ok_0@ == path,
            Err(e) => selected == Err::<String, ConfigurationError>(e),
        },
{
    match (directory, file) {
        (Some(d), None) => Ok(d),
        (None, Some(f)) => Ok(f),
        (Some(_), Some(_)) => Err(ConfigurationError::ConflictingInputs),
        (None, None) => Err(ConfigurationError::NoInput),
    }
}

/// An [`InputSpecification`] as a mathematical value.
pub ghost struct InputView {
    pub path: Seq<char>,
    pub is_directory: bool,
    /// The filter expression; empty where every packet is accepted.
    pub filter: Seq<char>,
}

/// The input of one run: a path, whether it is a directory, and the filter.
/// It does not change once made.
#[derive(Debug)]
pub struct InputSpecification {
    path: String,
    is_directory: bool,
    filter: String,
}

impl View for InputSpecification {
    type V = InputView;

    closed spec fn view(&self) -> InputView {
        InputView { path: self.path@, is_directory: self.is_directory, filter: self.filter@ }
    }
}

impl InputSpecification {
    /// The input at `path`. A filter that is absent accepts every packet, as
    /// an empty one does.
    pub fn new(path: String, is_directory: bool, filter: Option<String>) -> (input: Self)
        ensures
            input@ == (InputView {
                path: path@,
                is_directory,
                filter: match filter {
                    Some(f) => f@,
                    None => Seq::empty(),
                },
            }),
    {
        let filter = match filter {
            Some(f) => f,
            None => String::new(),
        };
        InputSpecification { path, is_directory, filter }
    }

    /// The input path.
    pub fn path(&self) -> (path: &str)
        ensures
            path@ == self@.path,
    {
        self.path.as_str()
    }

    /// Whether the input path is a directory, whose entries are the captures.
    pub fn is_directory(&self) -> (is_directory: bool)
        ensures
            is_directory == self@.is_directory,
    {
        self.is_directory
    }

    /// The filter expression.
    pub fn filter(&self) -> (filter: &str)
        ensures
            filter@ == self@.filter,
    {
        self.filter.as_str()
    }

    /// Whether every packet is accepted: the filter is empty.
    pub fn accepts_all(&self) -> (all: bool)
        ensures
            all == (self@.filter.len() == 0),
    {
        self.filter.as_str().unicode_len() == 0
    }
}

} // verus!

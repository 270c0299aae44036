//! Window-size validation and its error types: the checked part of the
//! window-creation surface
use crate::vector2::Vector2;
use vstd::prelude::*;

verus! {

/// Top-level error of the preview surface
#[derive(Debug, Clone, Copy, PartialEq, Eq, Structural)]
pub enum Error {
    WindowError(WindowError),
}

/// Errors of window creation
#[derive(Debug, Clone, Copy, PartialEq, Eq, Structural)]
pub enum WindowError {
    InvalidSize,
}

impl WindowError {
    /// The display text of this error
    pub fn message(&self) -> (r: &'static str)
        ensures
            r@ == "Invalid size of window"@,
    {
        "Invalid size of window"
    }
}

impl Error {
    /// The display text of this error
    pub fn message(&self) -> (r: &'static str)
        ensures
            r@ == "Window Error: Invalid size of window"@,
    {
        "Window Error: Invalid size of window"
    }
}

impl From<WindowError> for Error {
    fn from(err: WindowError) -> Error {
        Error::WindowError(err)
    }
}

impl vstd::std_specs::convert::FromSpecImpl<WindowError> for Error {
    open spec fn obeys_from_spec() -> bool {
        true
    }

    open spec fn from_spec(err: WindowError) -> Self {
        Error::WindowError(err)
    }
}

/// Accepts a window size when neither dimension exceeds 1000 pixels
///
/// # Errors
/// [`WindowError::InvalidSize`] when either dimension exceeds 1000
pub fn create_window(size: Vector2<u32>) -> (r: Result<(), WindowError>)
    ensures
        r is Err <==> size.x > 1000 || size.y > 1000,
        r is Err ==> (r->Err_0) == WindowError::InvalidSize,
{
    if size.x > 1000 || size.y > 1000 {
        Err(WindowError::InvalidSize)
    } else {
        Ok(())
    }
}

} // verus!

//! The error type that callers of the library see.

use vstd::prelude::*;

verus! {

/// Errors of the rendering pipeline.
#[derive(Debug)]
pub enum XlsxError {
    /// The input bytes are not an acceptable ZIP container.
    InvalidZipFormat,
    /// A failure during shared-string extraction, XML streaming, expression
    /// evaluation, post-processing, or workbook finalization. Carries the
    /// underlying diagnostic.
    TemplateRenderError(String),
}

impl XlsxError {
    /// The diagnostic message of this error.
    pub fn message(&self) -> (r: String)
        ensures
            match self {
                XlsxError::InvalidZipFormat => r@ == "Invalid Zip Format"@,
                XlsxError::TemplateRenderError(s) => r@ == s@,
            },
    {
        match self {
            XlsxError::InvalidZipFormat => String::from_str("Invalid Zip Format"),
            XlsxError::TemplateRenderError(s) => s.clone(),
        }
    }
}

} // verus!

//! The scoring formulas a match can be asked for.

use vstd::prelude::*;

verus! {

/// Selects the formula that scores a template against a patch of the frame.
#[allow(non_camel_case_types)]
#[derive(Clone, Copy, Debug, PartialEq, Eq, Structural)]
pub enum MatchTemplateMethod {
    /// Sum over the patch of the absolute differences.
    SumOfAbsoluteErrors,
    /// Sum over the patch of the squared differences.
    SumOfSquaredErrors,
    /// Sum over the patch of the products.
    CrossCorrelation,
    /// Cross-correlation of the patch and the template after the mean of
    /// each has been taken off.
    CCOEFF,
    /// `CCOEFF` divided by the energies of patch and template.
    CCOEFF_NORMED,
}

impl MatchTemplateMethod {
    /// Error metrics score identical images 0 and worse matches higher; the
    /// best match is the minimum of the grid.
    pub open spec fn is_error_metric(self) -> bool {
        self == MatchTemplateMethod::SumOfAbsoluteErrors
            || self == MatchTemplateMethod::SumOfSquaredErrors
    }

    /// The methods that the compute device scores with a kernel of its own.
    /// The others are composed from these.
    pub open spec fn has_kernel(self) -> bool {
        self == MatchTemplateMethod::SumOfAbsoluteErrors
            || self == MatchTemplateMethod::SumOfSquaredErrors
            || self == MatchTemplateMethod::CrossCorrelation
    }

    /// The name of the kernel's entry point, for the methods that have one.
    pub open spec fn kernel_name(self) -> Seq<char> {
        match self {
            MatchTemplateMethod::SumOfAbsoluteErrors => "main_sae"@,
            MatchTemplateMethod::SumOfSquaredErrors => "main_sse"@,
            _ => "main_cc"@,
        }
    }

    /// Whether lower scores are better under this method.
    pub fn prefers_minimum(self) -> (r: bool)
        ensures
            r == self.is_error_metric(),
    {
        match self {
            MatchTemplateMethod::SumOfAbsoluteErrors => true,
            MatchTemplateMethod::SumOfSquaredErrors => true,
            _ => false,
        }
    }

    /// The entry point of this method's kernel, or `UnsupportedMethod` where
    /// the device has none for it.
    pub fn entry_point(self) -> (r: Result<&'static str, crate::error::MatchError>)
        ensures
            r is Ok <==> self.has_kernel(),
            r is Ok ==> r->Ok_0@ == self.kernel_name(),
            r is Err ==> r->Err_0 == crate::error::MatchError::UnsupportedMethod,
    {
        match self {
            MatchTemplateMethod::SumOfAbsoluteErrors => Ok("main_sae"),
            MatchTemplateMethod::SumOfSquaredErrors => Ok("main_sse"),
            MatchTemplateMethod::CrossCorrelation => Ok("main_cc"),
            _ => Err(crate::error::MatchError::UnsupportedMethod),
        }
    }
}

} // verus!

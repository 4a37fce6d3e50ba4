//! What a request asks for, once its parameters have been read.

use vstd::prelude::*;
use vstd::string::*;
use crate::color::Rgb;
use crate::fade::Fade;
use crate::overlay::GradientColorType;

verus! {

/// How a request names the source of the gradient's color.
#[derive(Clone, Copy, Debug, PartialEq, Eq, Structural)]
pub enum GradientType {
    /// The dominant color of the whole image.
    Dominant,
    /// The dominant color of the bottom row of the image.
    DominantBottom,
    /// A color that the request gives beside it.
    UserDefined,
}

/// Why the parameters of a request do not make an overlay.
#[derive(Clone, Copy, Debug, PartialEq, Eq, Structural)]
pub enum QueryError {
    /// The request asks for a color of its own and gives none.
    MissingRgb,
}

impl QueryError {
    /// The text that goes with the error.
    pub open spec fn spec_message(self) -> Seq<char> {
        "Missing mandatory rgb values for user defined gradient"@
    }

    /// The text that goes with the error.
    pub fn message(&self) -> (text: String)
        ensures
            text@ == self.spec_message(),
    {
        String::from_str("Missing mandatory rgb values for user defined gradient")
    }
}

/// The overlay that a request asks for.
#[derive(Clone, Copy, Debug, PartialEq, Eq, Structural)]
pub struct OverlayRequest {
    /// Where the color of the gradient comes from.
    pub gradient: GradientColorType,
    /// The factor for the rows below the threshold row.
    pub fade: Fade,
}

/// The source of the color that a request names: a color of its own must
/// come with the request, and a color that comes with another variant is
/// not used.
pub open spec fn resolved_gradient(
    gradient_variant: GradientType,
    rgb: Option<Rgb>,
) -> Result<GradientColorType, QueryError> {
    match gradient_variant {
        GradientType::Dominant => Ok(GradientColorType::Dominant),
        GradientType::DominantBottom => Ok(GradientColorType::DominantBottom),
        GradientType::UserDefined => match rgb {
            Some(c) => Ok(GradientColorType::UserSelected(c.0, c.1, c.2)),
            None => Err(QueryError::MissingRgb),
        },
    }
}

/// The overlay that the parameters of a request ask for. A request without
/// a fade factor gets the factor one.
pub open spec fn planned_overlay(
    gradient_variant: GradientType,
    rgb: Option<Rgb>,
    fade: Option<Fade>,
) -> Result<OverlayRequest, QueryError> {
    match resolved_gradient(gradient_variant, rgb) {
        Ok(gradient) => Ok(
            OverlayRequest {
                gradient,
                fade: match fade {
                    Some(f) => f,
                    None => Fade::full(),
                },
            },
        ),
        Err(e) => Err(e),
    }
}

/// Turns the parameters of a request into the overlay it asks for.
pub fn plan_overlay(gradient_variant: GradientType, rgb: Option<Rgb>, fade: Option<Fade>) -> (plan:
    Result<OverlayRequest, QueryError>)
    ensures
        plan == planned_overlay(gradient_variant, rgb, fade),
{
    let gradient = match gradient_variant {
        GradientType::Dominant => GradientColorType::Dominant,
        GradientType::DominantBottom => GradientColorType::DominantBottom,
        GradientType::UserDefined => match rgb {
            Some(c) => GradientColorType::UserSelected(c.0, c.1, c.2),
            None => {
                return Err(QueryError::MissingRgb);
            },
        },
    };
    let fade = match fade {
        Some(f) => f,
        None => Fade::one(),
    };
    Ok(OverlayRequest { gradient, fade })
}

} // verus!

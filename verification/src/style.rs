//! The named styles in which a symbol can be shown.

use vstd::prelude::*;

verus! {

/// A style of presentation.
#[derive(PartialEq, Eq, Structural, Clone, Copy, Debug)]
pub enum QrStyle {
    Standard,
    MinimalLogo,
    GradientLogo,
    Premium,
    BrandedFinders,
    MinimalFinders,
    GradientFinders,
    GradientMinimal,
}

impl QrStyle {
    /// The name under which the style is offered.
    pub open spec fn spec_name(self) -> Seq<char> {
        match self {
            QrStyle::Standard => "Standard with Logo"@,
            QrStyle::MinimalLogo => "Minimal with Logo"@,
            QrStyle::GradientLogo => "Gradient with Logo"@,
            QrStyle::Premium => "Ultra Premium"@,
            QrStyle::BrandedFinders => "Branded Finders"@,
            QrStyle::MinimalFinders => "Minimal Finders"@,
            QrStyle::GradientFinders => "Gradient Finders"@,
            QrStyle::GradientMinimal => "Gradient Minimal"@,
        }
    }

    /// Returns the name under which the style is offered.
    pub fn name(&self) -> (name: &'static str)
        ensures
            name@ == self.spec_name(),
    {
        match self {
            QrStyle::Standard => "Standard with Logo",
            QrStyle::MinimalLogo => "Minimal with Logo",
            QrStyle::GradientLogo => "Gradient with Logo",
            QrStyle::Premium => "Ultra Premium",
            QrStyle::BrandedFinders => "Branded Finders",
            QrStyle::MinimalFinders => "Minimal Finders",
            QrStyle::GradientFinders => "Gradient Finders",
            QrStyle::GradientMinimal => "Gradient Minimal",
        }
    }
}

} // verus!

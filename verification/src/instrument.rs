//! The imaging instruments.
use vstd::prelude::*;

verus! {

/// An imaging instrument. MARS is CG-1D at HFIR; it has no logo of its own and
/// uses the general one of neutron imaging.
#[derive(Debug, Clone, Copy, PartialEq, Eq, Structural)]
pub enum Instrument {
    Venus,
    Mars,
}

impl Instrument {
    /// The name that is shown, and that the catalog uses.
    pub open spec fn shown_name(self) -> Seq<char> {
        match self {
            Instrument::Venus => "VENUS"@,
            Instrument::Mars => "MARS"@,
        }
    }

    /// The name that is shown, and that the catalog uses.
    pub fn name(self) -> (res: &'static str)
        ensures
            res@ == self.shown_name(),
    {
        match self {
            Instrument::Venus => "VENUS",
            Instrument::Mars => "MARS",
        }
    }

    /// The folder with the IPTS folders.
    pub fn root(self) -> (res: &'static str)
        ensures
            self == Instrument::Venus ==> res@ == "/SNS/VENUS"@,
            self == Instrument::Mars ==> res@ == "/HFIR/CG1D"@,
    {
        match self {
            Instrument::Venus => "/SNS/VENUS",
            Instrument::Mars => "/HFIR/CG1D",
        }
    }

    /// The logo in the header.
    pub fn logo(self) -> (res: &'static str)
        ensures
            self == Instrument::Venus ==> res@
                == "/SNS/VENUS/shared/software/logos/logo_with_green_neutron_rays.png"@,
            self == Instrument::Mars ==> res@ == "/SNS/VENUS/shared/software/logos/ImagingLogo.png"@,
    {
        match self {
            Instrument::Venus => "/SNS/VENUS/shared/software/logos/logo_with_green_neutron_rays.png",
            Instrument::Mars => "/SNS/VENUS/shared/software/logos/ImagingLogo.png",
        }
    }

    /// The instruments, in the order in which they are offered.
    pub fn all() -> (res: [Instrument; 2])
        ensures
            res@ == seq![Instrument::Venus, Instrument::Mars],
    {
        [Instrument::Venus, Instrument::Mars]
    }
}

/// The instruments go by their names.
pub proof fn instruments_go_by_their_names(i: Instrument)
    ensures
        i == Instrument::Venus ==> i.shown_name() == "VENUS"@,
        i == Instrument::Mars ==> i.shown_name() == "MARS"@,
{
}

} // verus!

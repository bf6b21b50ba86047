//! Distance units accepted by the geospatial commands.

use vstd::prelude::*;
use crate::utils::str_eq;

verus! {

#[derive(Debug, Clone, Copy, PartialEq, Eq, Structural)]
pub enum Units {
    Miles,
    Kilometers,
    Meters,
}

/// Parses a unit token: exactly "km", "m" or "mi".
pub fn parse(s: &String) -> (r: Result<Units, ()>)
    ensures
        s@ == "km"@ ==> r == Ok::<Units, ()>(Units::Kilometers),
        s@ == "m"@ ==> r == Ok::<Units, ()>(Units::Meters),
        s@ == "mi"@ ==> r == Ok::<Units, ()>(Units::Miles),
        s@ != "km"@ && s@ != "m"@ && s@ != "mi"@ ==> r == Err::<Units, ()>(()),
{
    proof {
        reveal_strlit("km");
        reveal_strlit("m");
        reveal_strlit("mi");
        assert("m"@.len() == 1);
        assert("km"@.len() == 2);
        assert("mi"@.len() == 2);
        assert("km"@[0] == 'k');
        assert("mi"@[0] == 'm');
        assert("m"@ != "km"@);
        assert("m"@ != "mi"@);
        assert("km"@ != "mi"@);
    }
    if str_eq(s.as_str(), "km") {
        Ok(Units::Kilometers)
    } else if str_eq(s.as_str(), "m") {
        Ok(Units::Meters)
    } else if str_eq(s.as_str(), "mi") {
        Ok(Units::Miles)
    } else {
        Err(())
    }
}

} // verus!

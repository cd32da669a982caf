//! Ship classification used by the report layer: the four ship classes,
//! their display order and their short display codes.

use vstd::prelude::*;
use core::cmp::Ordering;

verus! {

/// The four ship classes, in display order.
#[derive(Clone, Copy, Debug, PartialEq, Eq, Structural)]
pub enum ShipClass {
    Destroyer,
    Cruiser,
    Battleship,
    AircraftCarrier,
}

impl ShipClass {
    /// The position of this class in the display order.
    pub open spec fn rank(self) -> int {
        match self {
            ShipClass::Destroyer => 0,
            ShipClass::Cruiser => 1,
            ShipClass::Battleship => 2,
            ShipClass::AircraftCarrier => 3,
        }
    }

    /// The two-letter display code of this class.
    pub fn short(&self) -> (r: &'static str)
        ensures
            *self is Destroyer ==> r@ == "DD"@,
            *self is Cruiser ==> r@ == "CR"@,
            *self is Battleship ==> r@ == "BB"@,
            *self is AircraftCarrier ==> r@ == "CV"@,
    {
        match self {
            ShipClass::Destroyer => "DD",
            ShipClass::Cruiser => "CR",
            ShipClass::Battleship => "BB",
            ShipClass::AircraftCarrier => "CV",
        }
    }

    /// The class named by the API's ship-type string, or `None` for an
    /// unknown name.
    pub fn from_type_name(s: &str) -> (r: Option<ShipClass>)
        ensures
            s@ == "Cruiser"@ ==> r == Some(ShipClass::Cruiser),
            s@ == "Destroyer"@ ==> r == Some(ShipClass::Destroyer),
            s@ == "Battleship"@ ==> r == Some(ShipClass::Battleship),
            s@ == "AirCarrier"@ ==> r == Some(ShipClass::AircraftCarrier),
            s@ != "Cruiser"@ && s@ != "Destroyer"@ && s@ != "Battleship"@ && s@ != "AirCarrier"@
                ==> r is None,
    {
        proof {
            reveal_strlit("Cruiser");
            reveal_strlit("Destroyer");
            reveal_strlit("Battleship");
            reveal_strlit("AirCarrier");
            assert("Cruiser"@.len() == 7);
            assert("Destroyer"@.len() == 9);
            assert("Battleship"@.len() == 10);
            assert("AirCarrier"@.len() == 10);
            assert("Battleship"@[0] == 'B');
            assert("AirCarrier"@[0] == 'A');
        }
        let owned = s.to_owned();
        if owned == "Cruiser".to_owned() {
            Some(ShipClass::Cruiser)
        } else if owned == "Destroyer".to_owned() {
            Some(ShipClass::Destroyer)
        } else if owned == "Battleship".to_owned() {
            Some(ShipClass::Battleship)
        } else if owned == "AirCarrier".to_owned() {
            Some(ShipClass::AircraftCarrier)
        } else {
            None
        }
    }

    fn rank_value(&self) -> (r: u8)
        ensures
            r as int == self.rank(),
    {
        match self {
            ShipClass::Destroyer => 0,
            ShipClass::Cruiser => 1,
            ShipClass::Battleship => 2,
            ShipClass::AircraftCarrier => 3,
        }
    }
}

impl PartialOrd for ShipClass {
    /// Classes order by display rank: destroyers before cruisers before
    /// battleships before carriers.
    fn partial_cmp(&self, other: &Self) -> (r: Option<Ordering>) {
        let a = self.rank_value();
        let b = other.rank_value();
        if a < b {
            Some(Ordering::Less)
        } else if a == b {
            Some(Ordering::Equal)
        } else {
            Some(Ordering::Greater)
        }
    }
}

impl vstd::std_specs::cmp::PartialOrdSpecImpl for ShipClass {
    open spec fn obeys_partial_cmp_spec() -> bool {
        true
    }

    open spec fn partial_cmp_spec(&self, other: &Self) -> Option<Ordering> {
        if self.rank() < other.rank() {
            Some(Ordering::Less)
        } else if self.rank() == other.rank() {
            Some(Ordering::Equal)
        } else {
            Some(Ordering::Greater)
        }
    }
}

} // verus!

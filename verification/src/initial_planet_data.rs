//! The data structures needed to start generating a planet.

use vstd::prelude::*;

verus! {

/// High-level guess at what kind of planet is wanted.  Different kinds of
/// planets have different layers, so this is a convenient shorthand.
#[derive(Clone, Copy, Debug, PartialEq, Eq, Structural)]
pub enum PlanetType {
    Rocky,
    Gassy,
    Icy,
}

/// All the elements or compounds that a planet can be made out of.
#[derive(Clone, Copy, Debug, PartialEq, Eq, Structural)]
pub enum PlanetElement {
    Hydrogen,
    HydrogenSulfide,
    HydrogenCyanide,
    Water,
    Helium,
    Lithium,
    Carbon,
    CarbonMonoxide,
    CarbonDioxide,
    Methane,
    Nitrogen,
    Ammonia,
    AmmoniumSulfide,
    Neon,
    Sodium,
    TableSalt,
    Magnesium,
    Aluminum,
    Silica,
    Phosphorous,
    Sulfur,
    SulfurDioxide,
    Chlorine,
    Argon,
    Potassium,
    Calcium,
    Titanium,
    Chromium,
    Iron,
    Cobalt,
    Nickel,
    Copper,
    Zinc,
    Boromine,
    Silver,
    Iodine,
    Tungstein,
    Platinum,
    Gold,
    Mercury,
    Lead,
    Radon,
    Thorium,
    Uranium,
    Plutonium,
}

impl PlanetElement {
    /// Where, and how readily, each element spawns.  The per-element tables
    /// are not filled in yet; every element currently carries no data.
    pub fn spawn_data(element: PlanetElement) {
        match element {
            PlanetElement::Hydrogen => (),
            PlanetElement::HydrogenSulfide => (),
            PlanetElement::HydrogenCyanide => (),
            PlanetElement::Water => (),
            PlanetElement::Helium => (),
            PlanetElement::Lithium => (),
            PlanetElement::Carbon => (),
            PlanetElement::CarbonMonoxide => (),
            PlanetElement::CarbonDioxide => (),
            PlanetElement::Methane => (),
            PlanetElement::Nitrogen => (),
            PlanetElement::Ammonia => (),
            PlanetElement::AmmoniumSulfide => (),
            PlanetElement::Neon => (),
            PlanetElement::Sodium => (),
            PlanetElement::TableSalt => (),
            PlanetElement::Magnesium => (),
            PlanetElement::Aluminum => (),
            PlanetElement::Silica => (),
            PlanetElement::Phosphorous => (),
            PlanetElement::Sulfur => (),
            PlanetElement::SulfurDioxide => (),
            PlanetElement::Chlorine => (),
            PlanetElement::Argon => (),
            PlanetElement::Potassium => (),
            PlanetElement::Calcium => (),
            PlanetElement::Titanium => (),
            PlanetElement::Chromium => (),
            PlanetElement::Iron => (),
            PlanetElement::Cobalt => (),
            PlanetElement::Nickel => (),
            PlanetElement::Copper => (),
            PlanetElement::Zinc => (),
            PlanetElement::Boromine => (),
            PlanetElement::Silver => (),
            PlanetElement::Iodine => (),
            PlanetElement::Tungstein => (),
            PlanetElement::Platinum => (),
            PlanetElement::Gold => (),
            PlanetElement::Mercury => (),
            PlanetElement::Lead => (),
            PlanetElement::Radon => (),
            PlanetElement::Thorium => (),
            PlanetElement::Uranium => (),
            PlanetElement::Plutonium => (),
        }
    }
}

/// The very initial parameters for planet generation: the seed values from
/// which the rest of the planet is derived.  All quantities are integers;
/// the two periods are carried in thousandths of their unit.
#[derive(Clone, Copy, Debug, PartialEq, Eq, Structural)]
pub struct InitialPlanetParams {
    /// The distance from the planet to its star, in meters.
    pub distance_from_sun: u64,
    /// How long the planet takes to orbit its star, in thousandths of an
    /// Earth year.
    pub orbital_period: i64,
    /// How long the planet takes to make one full rotation, in thousandths
    /// of an Earth day.
    pub rotational_period: i64,
    /// The age of the planet when the player finds it, in Earth years.
    /// Planets cannot be older than the universe.
    pub age: u64,
    /// Whether to generate this planet as a gas giant.  Planets below a
    /// certain size cannot hold a thick hydrogen and helium atmosphere, so
    /// this choice constrains the radius.
    pub planet_type: PlanetType,
    /// The radius of the planet, in meters.
    pub radius: u64,
}

impl Default for InitialPlanetParams {
    /// An inert placeholder planet: all quantities zero, gaseous.
    fn default() -> (d: InitialPlanetParams)
        ensures
            d.distance_from_sun == 0,
            d.orbital_period == 0,
            d.rotational_period == 0,
            d.age == 0,
            d.planet_type == PlanetType::Gassy,
            d.radius == 0,
    {
        InitialPlanetParams {
            distance_from_sun: 0,
            orbital_period: 0,
            rotational_period: 0,
            age: 0,
            planet_type: PlanetType::Gassy,
            radius: 0,
        }
    }
}

} // verus!

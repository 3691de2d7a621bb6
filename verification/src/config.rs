//! A loaded preset: what `SocietyCreated` carries, so a society's history is
//! self-contained. Reading and overlaying the preset files is done outside
//! this library.
use crate::constitution::Constitution;
use crate::params::Params;
use crate::policy::Policy;
use vstd::prelude::*;

verus! {

/// The scoreboard fields the society shows.
#[derive(Clone, Debug)]
pub struct Scoreboard {
    pub primary: Vec<String>,
}

/// A fully loaded, validated preset.
#[derive(Clone, Debug)]
pub struct Preset {
    pub name: String,
    pub display: String,
    pub gdd_section: String,
    pub constitution: Constitution,
    pub policy: Policy,
    pub params: Params,
    pub scoreboard: Scoreboard,
}

} // verus!

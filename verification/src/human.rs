//! Human bodies: appearance and body modifications.

use vstd::prelude::*;

verus! {

/// A body modification: which part, and what is on it.
pub type BodyMod = (BodyPart, BodyAccesory);

#[derive(Debug, Clone, Copy, PartialEq, Eq, Structural)]
pub enum BodyAccesory {
    Piercing,
    Tattoo,
}

#[derive(Debug, Clone, Copy, PartialEq, Eq, Structural)]
pub enum BodyPart {
    Ear(BodySide),
    Lip(BodyVertical),
    Arm(BodySide),
    Hand(BodySide),
    Leg(BodySide),
}

#[derive(Debug, Clone, Copy, PartialEq, Eq, Structural)]
pub enum BodySide {
    Left,
    Right,
}

#[derive(Debug, Clone, Copy, PartialEq, Eq, Structural)]
pub enum BodyVertical {
    Upper,
    Lower,
}

#[derive(Debug, Clone, Copy, PartialEq, Eq, Structural)]
pub enum SkinColor {
    Bronze,
}

#[derive(Debug, Clone, Copy, PartialEq, Eq, Structural)]
pub enum EyeColor {
    Hazel,
    Gray,
}

#[derive(Debug, Clone, Copy, PartialEq, Eq, Structural)]
pub enum HairColor {
    Brunette,
}

/// Appearance of a human body.
#[derive(Debug, Clone, PartialEq, Eq)]
pub struct HumanBody {
    skin_color: SkinColor,
    hair_color: HairColor,
    eye_color: EyeColor,
    body_mods: Vec<BodyMod>,
}

impl HumanBody {
    pub closed spec fn spec_skin_color(&self) -> SkinColor {
        self.skin_color
    }

    pub closed spec fn spec_hair_color(&self) -> HairColor {
        self.hair_color
    }

    pub closed spec fn spec_eye_color(&self) -> EyeColor {
        self.eye_color
    }

    pub closed spec fn spec_body_mods(&self) -> Seq<BodyMod> {
        self.body_mods@
    }

    pub fn skin_color(&self) -> (r: SkinColor)
        ensures
            r == self.spec_skin_color(),
    {
        self.skin_color
    }

    pub fn hair_color(&self) -> (r: HairColor)
        ensures
            r == self.spec_hair_color(),
    {
        self.hair_color
    }

    pub fn eye_color(&self) -> (r: EyeColor)
        ensures
            r == self.spec_eye_color(),
    {
        self.eye_color
    }

    pub fn body_mods(&self) -> (r: &Vec<BodyMod>)
        ensures
            r@ == self.spec_body_mods(),
    {
        &self.body_mods
    }
}

/// A human: for now, just a body.
#[derive(Debug, Clone, PartialEq, Eq)]
pub struct Human {
    body: HumanBody,
}

impl Human {
    pub closed spec fn spec_body(&self) -> HumanBody {
        self.body
    }

    pub fn body(&self) -> (r: &HumanBody)
        ensures
            *r == self.spec_body(),
    {
        &self.body
    }

    /// A fresh human with the default appearance and no modifications.
    pub fn new() -> (r: Self)
        ensures
            r.spec_body().spec_skin_color() == SkinColor::Bronze,
            r.spec_body().spec_hair_color() == HairColor::Brunette,
            r.spec_body().spec_eye_color() == EyeColor::Hazel,
            r.spec_body().spec_body_mods() == Seq::<BodyMod>::empty(),
    {
        Human {
            body: HumanBody {
                skin_color: SkinColor::Bronze,
                hair_color: HairColor::Brunette,
                eye_color: EyeColor::Hazel,
                body_mods: Vec::new(),
            },
        }
    }
}

} // verus!

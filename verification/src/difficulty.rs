//! Difficulty presets: each carries the ordered drawing elements of the
//! hangman figure, and thereby the number of wrong guesses a round allows.

use vstd::prelude::*;

verus! {

/// One named part of the hangman figure, revealed by one wrong guess.
#[derive(Debug, Clone, Copy, PartialEq, Eq, Structural)]
pub enum HangmanDrawingElements {
    Base,
    VerticalBeam,
    HorizontalBeam,
    Rope,
    Head,
    Torso,
    LeftArm,
    RightArm,
    LeftLeg,
    RightLeg,
    // decorative extras used by the easier presets
    SupportBeam,
    LeftEye,
    RightEye,
    Mouth,
}

/// The drawing element order and the display name of one difficulty preset.
/// The length of the element list is the budget of wrong guesses.
#[derive(Debug)]
pub struct DifficultyLevel(pub Vec<HangmanDrawingElements>, pub &'static str);

/// Element order shared by the two easier presets: the full figure with
/// the support beam and the face.
pub open spec fn full_figure_elements() -> Seq<HangmanDrawingElements> {
    seq![
        HangmanDrawingElements::Base,
        HangmanDrawingElements::VerticalBeam,
        HangmanDrawingElements::HorizontalBeam,
        HangmanDrawingElements::SupportBeam,
        HangmanDrawingElements::Rope,
        HangmanDrawingElements::Head,
        HangmanDrawingElements::Torso,
        HangmanDrawingElements::LeftArm,
        HangmanDrawingElements::RightArm,
        HangmanDrawingElements::LeftLeg,
        HangmanDrawingElements::RightLeg,
        HangmanDrawingElements::LeftEye,
        HangmanDrawingElements::RightEye,
        HangmanDrawingElements::Mouth,
    ]
}

/// Element order of the hard preset: the plain figure, no extras.
pub open spec fn hard_elements() -> Seq<HangmanDrawingElements> {
    seq![
        HangmanDrawingElements::Base,
        HangmanDrawingElements::VerticalBeam,
        HangmanDrawingElements::HorizontalBeam,
        HangmanDrawingElements::Rope,
        HangmanDrawingElements::Head,
        HangmanDrawingElements::Torso,
        HangmanDrawingElements::LeftArm,
        HangmanDrawingElements::RightArm,
        HangmanDrawingElements::LeftLeg,
        HangmanDrawingElements::RightLeg,
    ]
}

/// Element order of the hardest preset: as hard, without the base.
pub open spec fn hardest_elements() -> Seq<HangmanDrawingElements> {
    seq![
        HangmanDrawingElements::VerticalBeam,
        HangmanDrawingElements::HorizontalBeam,
        HangmanDrawingElements::Rope,
        HangmanDrawingElements::Head,
        HangmanDrawingElements::Torso,
        HangmanDrawingElements::LeftArm,
        HangmanDrawingElements::RightArm,
        HangmanDrawingElements::LeftLeg,
        HangmanDrawingElements::RightLeg,
    ]
}

impl DifficultyLevel {
    pub fn get_easiest() -> (r: DifficultyLevel)
        ensures
            r.0@ =~= full_figure_elements(),
            r.1@ == "Easiest"@,
    {
        DifficultyLevel(
            vec![
                HangmanDrawingElements::Base,
                HangmanDrawingElements::VerticalBeam,
                HangmanDrawingElements::HorizontalBeam,
                HangmanDrawingElements::SupportBeam,
                HangmanDrawingElements::Rope,
                HangmanDrawingElements::Head,
                HangmanDrawingElements::Torso,
                HangmanDrawingElements::LeftArm,
                HangmanDrawingElements::RightArm,
                HangmanDrawingElements::LeftLeg,
                HangmanDrawingElements::RightLeg,
                HangmanDrawingElements::LeftEye,
                HangmanDrawingElements::RightEye,
                HangmanDrawingElements::Mouth,
            ],
            "Easiest",
        )
    }

    pub fn get_normal() -> (r: DifficultyLevel)
        ensures
            r.0@ =~= full_figure_elements(),
            r.1@ == "Normal"@,
    {
        DifficultyLevel(
            vec![
                HangmanDrawingElements::Base,
                HangmanDrawingElements::VerticalBeam,
                HangmanDrawingElements::HorizontalBeam,
                HangmanDrawingElements::SupportBeam,
                HangmanDrawingElements::Rope,
                HangmanDrawingElements::Head,
                HangmanDrawingElements::Torso,
                HangmanDrawingElements::LeftArm,
                HangmanDrawingElements::RightArm,
                HangmanDrawingElements::LeftLeg,
                HangmanDrawingElements::RightLeg,
                HangmanDrawingElements::LeftEye,
                HangmanDrawingElements::RightEye,
                HangmanDrawingElements::Mouth,
            ],
            "Normal",
        )
    }

    pub fn get_hard() -> (r: DifficultyLevel)
        ensures
            r.0@ =~= hard_elements(),
            r.1@ == "Hard"@,
    {
        DifficultyLevel(
            vec![
                HangmanDrawingElements::Base,
                HangmanDrawingElements::VerticalBeam,
                HangmanDrawingElements::HorizontalBeam,
                HangmanDrawingElements::Rope,
                HangmanDrawingElements::Head,
                HangmanDrawingElements::Torso,
                HangmanDrawingElements::LeftArm,
                HangmanDrawingElements::RightArm,
                HangmanDrawingElements::LeftLeg,
                HangmanDrawingElements::RightLeg,
            ],
            "Hard",
        )
    }

    pub fn get_hardest() -> (r: DifficultyLevel)
        ensures
            r.0@ =~= hardest_elements(),
            r.1@ == "Hardest"@,
    {
        DifficultyLevel(
            vec![
                HangmanDrawingElements::VerticalBeam,
                HangmanDrawingElements::HorizontalBeam,
                HangmanDrawingElements::Rope,
                HangmanDrawingElements::Head,
                HangmanDrawingElements::Torso,
                HangmanDrawingElements::LeftArm,
                HangmanDrawingElements::RightArm,
                HangmanDrawingElements::LeftLeg,
                HangmanDrawingElements::RightLeg,
            ],
            "Hardest",
        )
    }
}

impl Clone for DifficultyLevel {
    /// A clone carries the same elements and the same name.
    fn clone(&self) -> (r: Self)
        ensures
            r.0@ == self.0@,
            r.1 == self.1,
    {
        let mut elements: Vec<HangmanDrawingElements> = Vec::new();
        let mut i: usize = 0;
        while i < self.0.len()
            invariant
                i <= self.0.len(),
                elements@ =~= self.0@.subrange(0, i as int),
            decreases self.0.len() - i,
        {
            elements.push(self.0[i]);
            i += 1;
        }
        proof {
            assert(elements@ =~= self.0@);
        }
        DifficultyLevel(elements, self.1)
    }
}

} // verus!

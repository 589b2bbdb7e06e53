use hangman::difficulty::{DifficultyLevel, HangmanDrawingElements};
use hangman::difficulty::HangmanDrawingElements::{
    Base, HorizontalBeam, Head, LeftArm, LeftEye, LeftLeg, Mouth, RightArm, RightEye, RightLeg,
    Rope, SupportBeam, Torso, VerticalBeam,
};

fn full_figure() -> Vec<HangmanDrawingElements> {
    vec![
        Base, VerticalBeam, HorizontalBeam, SupportBeam, Rope, Head, Torso, LeftArm, RightArm,
        LeftLeg, RightLeg, LeftEye, RightEye, Mouth,
    ]
}

#[test]
fn easiest_has_the_full_figure() {
    let level = DifficultyLevel::get_easiest();
    assert_eq!(level.0, full_figure());
    assert_eq!(level.1, "Easiest");
}

#[test]
fn normal_has_the_full_figure() {
    let level = DifficultyLevel::get_normal();
    assert_eq!(level.0, full_figure());
    assert_eq!(level.1, "Normal");
}

#[test]
fn hard_drops_the_decorations() {
    let level = DifficultyLevel::get_hard();
    assert_eq!(
        level.0,
        vec![
            Base, VerticalBeam, HorizontalBeam, Rope, Head, Torso, LeftArm, RightArm, LeftLeg,
            RightLeg,
        ]
    );
    assert_eq!(level.1, "Hard");
    assert_eq!(level.0.len(), 10);
}

#[test]
fn hardest_also_drops_the_base() {
    let level = DifficultyLevel::get_hardest();
    assert_eq!(
        level.0,
        vec![
            VerticalBeam, HorizontalBeam, Rope, Head, Torso, LeftArm, RightArm, LeftLeg, RightLeg,
        ]
    );
    assert_eq!(level.1, "Hardest");
    assert_eq!(level.0.len(), 9);
}

#[test]
fn cloning_keeps_elements_and_name() {
    let level = DifficultyLevel::get_hard();
    let copy = level.clone();
    assert_eq!(copy.0, level.0);
    assert_eq!(copy.1, level.1);
}

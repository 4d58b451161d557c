//! The layers of a level.

use vstd::prelude::*;

verus! {

/// The layers of a level, by their names in the level file.
#[derive(Clone, Copy, PartialEq, Eq, Structural, Debug)]
pub enum LevelLayer {
    Background,
    Collision,
    Foreground,
}

impl LevelLayer {
    pub open spec fn spec_name(self) -> Seq<char> {
        match self {
            LevelLayer::Background => "Background"@,
            LevelLayer::Collision => "Collision"@,
            LevelLayer::Foreground => "Foreground"@,
        }
    }

    /// The layer's name in the level file.
    pub fn as_str(&self) -> (name: &'static str)
        ensures
            name@ == self.spec_name(),
    {
        match self {
            LevelLayer::Background => "Background",
            LevelLayer::Collision => "Collision",
            LevelLayer::Foreground => "Foreground",
        }
    }

    /// The name of the tile layer that the level editor derives from this
    /// layer by its auto-tiling rules: the layer's name followed by `_AL`.
    pub fn auto_layer_identifier(&self) -> (name: &'static str)
        ensures
            name@ == self.spec_name() + "_AL"@,
    {
        proof {
            reveal_strlit("_AL");
            reveal_strlit("Background");
            reveal_strlit("Collision");
            reveal_strlit("Foreground");
            reveal_strlit("Background_AL");
            reveal_strlit("Collision_AL");
            reveal_strlit("Foreground_AL");
        }
        match self {
            LevelLayer::Background => {
                assert("Background_AL"@ =~= "Background"@ + "_AL"@);
                "Background_AL"
            },
            LevelLayer::Collision => {
                assert("Collision_AL"@ =~= "Collision"@ + "_AL"@);
                "Collision_AL"
            },
            LevelLayer::Foreground => {
                assert("Foreground_AL"@ =~= "Foreground"@ + "_AL"@);
                "Foreground_AL"
            },
        }
    }

    /// Whether a tile layer named `identifier` is this layer's auto layer.
    pub fn is_auto_layer(&self, identifier: &String) -> (found: bool)
        ensures
            found == (identifier@ == self.spec_name() + "_AL"@),
    {
        let own = self.auto_layer_identifier().to_owned();
        *identifier == own
    }
}

} // verus!

use vstd::prelude::*;

use crate::render::RenderError;

verus! {

/// An icon pair: the glyph drawn left of a key whose value has nested
/// structure, and the glyph drawn left of a key whose value is a scalar.
#[derive(Debug, Clone, Copy, PartialEq, Eq, Structural)]
pub struct Icon {
    pub non_leaf_icon: char,
    pub leaf_icon: char,
}

/// The glyph pair of a recognized family.  Meaningful only where
/// `family_glyphs` is `Some`.
pub open spec fn family_icon(name: Seq<char>) -> Icon {
    if name == "pokerface"@ {
        Icon { non_leaf_icon: '♢', leaf_icon: '♤' }
    } else {
        Icon { non_leaf_icon: '♥', leaf_icon: '♦' }
    }
}

/// The fixed, enumerable registry of icon families.
pub open spec fn family_glyphs(name: Seq<char>) -> Option<(char, char)> {
    if name == "pokerface"@ || name == "heart"@ {
        Some((family_icon(name).non_leaf_icon, family_icon(name).leaf_icon))
    } else {
        None
    }
}

impl Icon {
    /// Resolves an icon family name from the registry.  An unrecognized
    /// name is a recoverable error, never a crash.
    pub fn new(family: &str) -> (r: Result<Icon, RenderError>)
        ensures
            family_glyphs(family@) is Some ==> r == Ok::<Icon, RenderError>(family_icon(family@)),
            family_glyphs(family@) is None ==> r == Err::<Icon, RenderError>(
                RenderError::UnknownIconFamily,
            ),
    {
        proof {
            reveal_strlit("pokerface");
            reveal_strlit("heart");
            assert("pokerface"@.len() == 9);
            assert("heart"@.len() == 5);
        }
        let n = String::from_str(family);
        if n == String::from_str("pokerface") {
            Ok(Icon { non_leaf_icon: '♢', leaf_icon: '♤' })
        } else if n == String::from_str("heart") {
            Ok(Icon { non_leaf_icon: '♥', leaf_icon: '♦' })
        } else {
            Err(RenderError::UnknownIconFamily)
        }
    }

    /// Looks a family name up in the registry: the glyph pair, or `None`
    /// for a name the registry does not know.
    pub fn _get(&self, name: &str) -> (r: Option<(char, char)>)
        ensures
            r == family_glyphs(name@),
    {
        proof {
            reveal_strlit("pokerface");
            reveal_strlit("heart");
            assert("pokerface"@.len() == 9);
            assert("heart"@.len() == 5);
        }
        let n = String::from_str(name);
        if n == String::from_str("pokerface") {
            Some(('♢', '♤'))
        } else if n == String::from_str("heart") {
            Some(('♥', '♦'))
        } else {
            None
        }
    }
}

} // verus!

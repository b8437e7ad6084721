//! Color themes for the interactive display. The theme itself is plain
//! state — an ordered rotation with display names; the concrete color
//! palettes belong to the rendering layer.

use vstd::prelude::*;

verus! {

/// Available color themes.
#[derive(Debug, Clone, Copy, PartialEq, Eq, Structural)]
pub enum Theme {
    /// Default dark theme (cool blues and greens).
    DarkDefault,
    /// Warm dark theme (oranges and pinks).
    DarkWarm,
    /// Purple-focused dark theme.
    DarkPurple,
    /// Teal-focused dark theme.
    DarkTeal,
    /// Light theme (soft pastels on a light background).
    LightDefault,
    /// Warm light theme (peachy pastels).
    LightWarm,
    /// Cool light theme (minty pastels).
    LightCool,
}

impl Default for Theme {
    fn default() -> (r: Self)
        ensures
            r == Theme::DarkDefault,
    {
        Theme::DarkDefault
    }
}

/// The rotation order of the themes.
pub open spec fn spec_next_theme(t: Theme) -> Theme {
    match t {
        Theme::DarkDefault => Theme::DarkWarm,
        Theme::DarkWarm => Theme::DarkPurple,
        Theme::DarkPurple => Theme::DarkTeal,
        Theme::DarkTeal => Theme::LightDefault,
        Theme::LightDefault => Theme::LightWarm,
        Theme::LightWarm => Theme::LightCool,
        Theme::LightCool => Theme::DarkDefault,
    }
}

impl Theme {
    /// All available themes, in rotation order.
    pub fn all() -> (r: Vec<Theme>)
        ensures
            r@ == seq![
                Theme::DarkDefault, Theme::DarkWarm, Theme::DarkPurple, Theme::DarkTeal,
                Theme::LightDefault, Theme::LightWarm, Theme::LightCool,
            ],
    {
        let mut v: Vec<Theme> = Vec::new();
        v.push(Theme::DarkDefault);
        v.push(Theme::DarkWarm);
        v.push(Theme::DarkPurple);
        v.push(Theme::DarkTeal);
        v.push(Theme::LightDefault);
        v.push(Theme::LightWarm);
        v.push(Theme::LightCool);
        proof {
            assert(v@ =~= seq![
                Theme::DarkDefault, Theme::DarkWarm, Theme::DarkPurple, Theme::DarkTeal,
                Theme::LightDefault, Theme::LightWarm, Theme::LightCool,
            ]);
        }
        v
    }

    /// The next theme in rotation.
    pub fn next(&self) -> (r: Theme)
        ensures
            r == spec_next_theme(*self),
    {
        match self {
            Theme::DarkDefault => Theme::DarkWarm,
            Theme::DarkWarm => Theme::DarkPurple,
            Theme::DarkPurple => Theme::DarkTeal,
            Theme::DarkTeal => Theme::LightDefault,
            Theme::LightDefault => Theme::LightWarm,
            Theme::LightWarm => Theme::LightCool,
            Theme::LightCool => Theme::DarkDefault,
        }
    }

    /// The display name of the theme.
    pub fn display_name(&self) -> (r: &'static str)
        ensures
            *self == Theme::DarkDefault ==> r@ == "Dark Default"@,
            *self == Theme::DarkWarm ==> r@ == "Dark Warm"@,
            *self == Theme::DarkPurple ==> r@ == "Dark Purple"@,
            *self == Theme::DarkTeal ==> r@ == "Dark Teal"@,
            *self == Theme::LightDefault ==> r@ == "Light Default"@,
            *self == Theme::LightWarm ==> r@ == "Light Warm"@,
            *self == Theme::LightCool ==> r@ == "Light Cool"@,
            r@.len() > 0,
    {
        proof {
            reveal_strlit("Dark Default");
            reveal_strlit("Dark Warm");
            reveal_strlit("Dark Purple");
            reveal_strlit("Dark Teal");
            reveal_strlit("Light Default");
            reveal_strlit("Light Warm");
            reveal_strlit("Light Cool");
        }
        match self {
            Theme::DarkDefault => "Dark Default",
            Theme::DarkWarm => "Dark Warm",
            Theme::DarkPurple => "Dark Purple",
            Theme::DarkTeal => "Dark Teal",
            Theme::LightDefault => "Light Default",
            Theme::LightWarm => "Light Warm",
            Theme::LightCool => "Light Cool",
        }
    }
}

/// Applying the rotation once per theme returns to the start after
/// exactly as many steps as there are themes.
pub proof fn lemma_theme_rotation_cycles(t: Theme)
    ensures
        spec_next_theme(spec_next_theme(spec_next_theme(spec_next_theme(
            spec_next_theme(spec_next_theme(spec_next_theme(t))))))) == t,
{
}

} // verus!

//! What the viewer remembers about how it should look.
//!
//! Nothing here can stop the viewer opening: a missing file, a broken one, and a
//! setting written by a newer version all resolve to a default.

use vstd::prelude::*;
use crate::text::{cat, chars_of, opt_text, owned, same};

verus! {

/// Where the colour scheme comes from.
#[derive(Debug, Clone, Copy, PartialEq, Eq, Structural)]
pub enum Theme {
    /// Whatever the desktop asks for, and it changes when the desktop does.
    System,
    Light,
    Dark,
}

impl Default for Theme {
    fn default() -> (r: Self)
        ensures
            r == Theme::System,
    {
        Theme::System
    }
}

impl Theme {
    /// In the order they are offered: following the system first, because it is
    /// the default.
    pub const ALL: [Theme; 3] = [Theme::System, Theme::Light, Theme::Dark];

    pub open spec fn name(self) -> Seq<char> {
        match self {
            Theme::System => "Follow the system"@,
            Theme::Light => "Light"@,
            Theme::Dark => "Dark"@,
        }
    }

    /// How a theme is called where it is chosen.
    pub fn label(&self) -> (r: &'static str)
        ensures
            r@ == self.name(),
    {
        match self {
            Theme::System => "Follow the system",
            Theme::Light => "Light",
            Theme::Dark => "Dark",
        }
    }

    pub open spec fn word(self) -> Seq<char> {
        match self {
            Theme::System => "system"@,
            Theme::Light => "light"@,
            Theme::Dark => "dark"@,
        }
    }

    /// What goes in the file. Apart from the label, so that the wording can
    /// change without invalidating anyone's settings.
    pub fn slug(&self) -> (r: &'static str)
        ensures
            r@ == self.word(),
    {
        match self {
            Theme::System => "system",
            Theme::Light => "light",
            Theme::Dark => "dark",
        }
    }

    /// The theme a slug stands for.
    pub open spec fn of_word(s: Seq<char>) -> Option<Theme> {
        if s == "system"@ {
            Some(Theme::System)
        } else if s == "light"@ {
            Some(Theme::Light)
        } else if s == "dark"@ {
            Some(Theme::Dark)
        } else {
            None
        }
    }

    pub fn from_slug(s: &str) -> (r: Option<Theme>)
        ensures
            r == Theme::of_word(s@),
    {
        if same(s, "system") {
            Some(Theme::System)
        } else if same(s, "light") {
            Some(Theme::Light)
        } else if same(s, "dark") {
            Some(Theme::Dark)
        } else {
            None
        }
    }

    /// The theme a stored word gives: an unrecognised one is not an error, and
    /// costs no other setting.
    pub open spec fn read(word: Option<Seq<char>>) -> Theme {
        match word {
            Some(w) => match Theme::of_word(w) {
                Some(t) => t,
                None => Theme::System,
            },
            None => Theme::System,
        }
    }

    pub fn stored(word: &Option<String>) -> (r: Theme)
        ensures
            r == Theme::read(opt_text(*word)),
    {
        match word {
            Some(w) => match Theme::from_slug(w.as_str()) {
                Some(t) => t,
                None => Theme::default(),
            },
            None => Theme::default(),
        }
    }

    /// Which entry of [`Theme::ALL`] a theme is.
    pub fn place(&self) -> (r: usize)
        ensures
            r < 3,
            Theme::ALL[r as int] == *self,
    {
        match self {
            Theme::System => 0,
            Theme::Light => 1,
            Theme::Dark => 2,
        }
    }
}

#[derive(Debug, Clone, Copy, PartialEq, Eq, Structural)]
pub struct Settings {
    pub theme: Theme,
}

impl Default for Settings {
    fn default() -> (r: Self)
        ensures
            r.theme == Theme::System,
    {
        Settings { theme: Theme::default() }
    }
}

impl Settings {
    /// The settings a file gave, or the defaults where it gave none.
    pub fn load(read: Option<Settings>) -> (r: Settings)
        ensures
            r == (match read {
                Some(s) => s,
                None => Settings { theme: Theme::System },
            }),
    {
        match read {
            Some(s) => s,
            None => Settings::default(),
        }
    }

    /// Takes a chosen theme on. Says whether that changed anything, since only
    /// then is there something to apply and to save.
    pub fn choose_theme(&mut self, theme: Theme) -> (changed: bool)
        ensures
            changed == (old(self).theme != theme),
            final(self).theme == theme,
    {
        if self.theme == theme {
            false
        } else {
            self.theme = theme;
            true
        }
    }
}

/// What is said where there is nowhere to keep settings.
pub const NO_CONFIG_DIR: &'static str = "no config directory (set $XDG_CONFIG_HOME or $HOME)";

/// A path with a relative one behind it.
pub open spec fn beneath(base: Seq<char>, name: Seq<char>) -> Seq<char> {
    if base.len() == 0 || base.last() == '/' {
        base + name
    } else {
        base + "/"@ + name
    }
}

fn under(base: &str, name: &str) -> (r: String)
    ensures
        r@ == beneath(base@, name@),
{
    let cs = chars_of(base);
    if cs.len() == 0 || cs[cs.len() - 1] == '/' {
        cat(base, name)
    } else {
        let slashed = cat(base, "/");
        cat(slashed.as_str(), name)
    }
}

/// The directory settings are kept under: `$XDG_CONFIG_HOME` where it is
/// absolute, else `.config` in `$HOME`.
pub open spec fn config_base(xdg: Option<Seq<char>>, home: Option<Seq<char>>) -> Option<Seq<char>> {
    match (xdg, home) {
        (Some(x), _) if x.len() > 0 && x[0] == '/' => Some(x),
        (_, Some(h)) => Some(beneath(h, ".config"@)),
        _ => None,
    }
}

/// Where the settings file stands, from the two variables that say so.
pub fn default_path(xdg: &Option<String>, home: &Option<String>) -> (r: Option<String>)
    ensures
        opt_text(r) == (match config_base(opt_text(*xdg), opt_text(*home)) {
            Some(base) => Some(beneath(beneath(base, "usbdiag"@), "gui.json"@)),
            None => None,
        }),
{
    let base = match (xdg, home) {
        (Some(x), _) if is_absolute(x.as_str()) => owned(x.as_str()),
        (_, Some(h)) => under(h.as_str(), ".config"),
        _ => {
            return None;
        },
    };
    let dir = under(base.as_str(), "usbdiag");
    Some(under(dir.as_str(), "gui.json"))
}

fn is_absolute(path: &str) -> (r: bool)
    ensures
        r == (path@.len() > 0 && path@[0] == '/'),
{
    let cs = chars_of(path);
    cs.len() > 0 && cs[0] == '/'
}

/// A theme survives the file: the word it is stored under gives it back.
pub proof fn a_stored_theme_is_read_back(t: Theme)
    ensures
        Theme::of_word(t.word()) == Some(t),
        Theme::read(Some(t.word())) == t,
{
    reveal_strlit("system");
    reveal_strlit("light");
    reveal_strlit("dark");
    assert("system"@.len() == 6 && "light"@.len() == 5 && "dark"@.len() == 4);
}

/// A word no theme is stored under is read as following the system, and so is
/// none at all.
pub proof fn an_unknown_theme_follows_the_system(s: Seq<char>)
    requires
        forall|t: Theme| s != #[trigger] t.word(),
    ensures
        Theme::read(Some(s)) == Theme::System,
        Theme::read(None) == Theme::System,
{
    assert(s != Theme::System.word());
    assert(s != Theme::Light.word());
    assert(s != Theme::Dark.word());
}

} // verus!

//! Front-end configuration: window geometry and theme colours, together
//! with the stylesheet text generated from them.  Reading and writing the
//! configuration directory is the embedding program's job; this module only
//! defines the values and the text.

use vstd::prelude::*;
use vstd::string::*;

verus! {

/// Colour settings, as hex-colour strings.
pub struct Theme {
    pub background_color: String,
    pub text_color: String,
    pub selection_color: String,
}

/// Launcher window configuration.
pub struct Config {
    pub width: i32,
    pub height: i32,
    pub font_size: i32,
    pub theme: Theme,
}

impl Default for Config {
    /// The built-in configuration, used whenever no configuration file is
    /// present or the present one cannot be read.
    fn default() -> (c: Config)
        ensures
            c.width == 600,
            c.height == 600,
            c.font_size == 14,
            c.theme.background_color@ == "#0f0f0f"@,
            c.theme.text_color@ == "#eceff4"@,
            c.theme.selection_color@ == "#1f1f1f"@,
    {
        Config {
            width: 600,
            height: 600,
            font_size: 14,
            theme: Theme {
                background_color: String::from_str("#0f0f0f"),
                text_color: String::from_str("#eceff4"),
                selection_color: String::from_str("#1f1f1f"),
            },
        }
    }
}

/// Stylesheet text up to the point where the selection colour is inserted.
pub const CSS_BEFORE_SELECTION: &'static str = "window {
            background-color: #0f0f0f;
        }

        list {
            background: #0f0f0f;
        }

        list row {
            padding: 4px;
            margin: 2px 6px;
            border-radius: 8px;
            background: #0f0f0f;
            transition: all 200ms ease;
        }

        list row:selected {
            background-color: ";

/// Stylesheet text following the inserted selection colour.
pub const CSS_AFTER_SELECTION: &'static str = ";
        }

        list row:hover:not(:selected) {
            background-color: #181818;
        }

        entry {
            margin: 12px;
            margin-bottom: 8px;
            padding: 12px;
            border-radius: 8px;
            background-color: #1f1f1f;
            color: #e0e0e0;
            caret-color: #808080;
            font-size: 16px;
            box-shadow: 0 2px 4px rgba(0, 0, 0, 0.2);
        }

        entry:focus {
            background-color: #282828;
        }

        .app-name {
            color: #ffffff;
            font-size: 14px;
            font-weight: bold;
            margin-right: 8px;
        }

        .app-description {
            color: #a0a0a0;
            font-size: 12px;
            margin-right: 8px;
        }

        .app-path {
            color: #808080;
            font-size: 12px;
            font-family: monospace;
            opacity: 0.8;
        }";

/// The stylesheet for a given selection colour: the fixed text with the
/// colour spliced into the `list row:selected` rule.
pub open spec fn default_css_spec(selection_color: Seq<char>) -> Seq<char> {
    CSS_BEFORE_SELECTION@ + selection_color + CSS_AFTER_SELECTION@
}

/// The stylesheet used when no stylesheet file is present.
pub fn get_default_css(config: &Config) -> (css: String)
    ensures
        css@ == default_css_spec(config.theme.selection_color@),
{
    let mut css = String::from_str(CSS_BEFORE_SELECTION);
    css.append(config.theme.selection_color.as_str());
    css.append(CSS_AFTER_SELECTION);
    css
}

} // verus!

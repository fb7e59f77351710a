use vstd::prelude::*;

use crate::color_math::generate_palette;
use crate::color_spaces::Color;
use crate::error::PaletteError;
use crate::file::{cache_text, palette_to_cache};

verus! {

/// Number of colors in a palette generated when no cache can be loaded.
pub const START_PALETTE_SIZE: usize = 5;

/// State of the palette editor: the colors on screen and whether the user
/// asked to quit. A terminal front end draws it, feeds it key presses, and
/// performs the file reads and writes that it asks for.
#[derive(Debug)]
pub struct App {
    pub colors: Vec<Color>,
    pub exit: bool,
}

impl Default for App {
    fn default() -> (r: App)
        ensures
            r.colors@.len() == 0,
            !r.exit,
    {
        App { colors: Vec::new(), exit: false }
    }
}

impl App {
    /// Marks the editor as finished.
    pub fn exit(&mut self)
        ensures
            final(self).exit,
            final(self).colors@ == old(self).colors@,
    {
        self.exit = true;
    }

    /// Reacts to a key press: `q` quits, other keys change nothing.
    pub fn handle_key(&mut self, key: char)
        ensures
            final(self).exit == (old(self).exit || key == 'q'),
            final(self).colors@ == old(self).colors@,
    {
        if key == 'q' {
            self.exit();
        }
    }

    /// Shows the palette loaded from the cache, or, when it could not be
    /// loaded, a freshly generated palette of `START_PALETTE_SIZE` colors.
    pub fn startup(&mut self, cached: Result<Vec<Color>, PaletteError>)
        ensures
            final(self).exit == old(self).exit,
            cached matches Ok(v) ==> final(self).colors@ == v@,
            cached is Err ==> final(self).colors@.len() == START_PALETTE_SIZE && forall|i: int|
                0 <= i < START_PALETTE_SIZE ==> (#[trigger] final(self).colors@[i]).hsl.valid()
                    && final(self).colors@[i].resolved() && !final(self).colors@[i].locked,
    {
        match cached {
            Ok(colors) => {
                self.colors = colors;
            },
            Err(_) => {
                match generate_palette(START_PALETTE_SIZE) {
                    Ok(colors) => {
                        self.colors = colors;
                    },
                    Err(_) => {},
                }
            },
        }
    }

    /// The cache text to write when the editor closes.
    pub fn shutdown(&self) -> (r: String)
        ensures
            r@ == cache_text(self.colors@),
    {
        palette_to_cache(&self.colors)
    }
}

} // verus!

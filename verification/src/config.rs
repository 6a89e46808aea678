//! Application-level configuration consumed by the embedder.

use vstd::prelude::*;

verus! {

/// The window scale and the font and program files an embedder loads.
#[derive(Clone)]
pub struct ApplicationConfig {
    pub screen_scale: u32,
    pub font_path: String,
    pub program_path: String,
}

impl Default for ApplicationConfig {
    /// The default configuration: scale 20, the bundled font and the
    /// welcome program.
    fn default() -> (config: ApplicationConfig)
        ensures
            config.screen_scale == 20,
            config.font_path@ == "./fonts/chip48.font"@,
            config.program_path@ == "./programs/welcome.ch8"@,
    {
        ApplicationConfig {
            screen_scale: 20,
            font_path: "./fonts/chip48.font".to_string(),
            program_path: "./programs/welcome.ch8".to_string(),
        }
    }
}

} // verus!

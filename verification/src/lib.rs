//! Core engine for an interactive viewer of one-dimensional elementary
//! cellular automata: rule evaluation, tile-based computation with light-cone
//! padding, an LRU tile cache, viewport planning and assembly, and the
//! interaction state machine that drives recomputation.
use vstd::prelude::*;

pub mod automaton;
pub mod cache;
pub mod compute;
pub mod constants;
pub mod controller;
pub mod planner;
pub mod rule;
pub mod viewport;

use crate::automaton::init_chars;

verus! {

/// One reason a configuration was rejected.
#[derive(Debug, Clone, Copy, PartialEq, Eq, Structural)]
pub enum ConfigError {
    /// The explicit initial state holds a character other than '0' or '1'.
    InitialStateNotBinary,
    WidthTooSmall,
    WidthTooLarge,
    HeightTooSmall,
    HeightTooLarge,
    CacheTilesTooMany,
    TileSizeTooSmall,
    TileSizeTooLarge,
    TileSizeZero,
    DebounceTooLarge,
}

/// Configuration for the engine: plain values, no command-line types.
#[derive(Debug, Clone)]
pub struct Config {
    /// Rule byte; every value 0 through 255 is a rule.
    pub rule: u8,
    /// Explicit generation-0 state as a binary string placed from world
    /// column 0, or the default single live cell at column 0.
    pub initial_state: Option<String>,
    /// Window width in pixels.
    pub width: u32,
    /// Window height in pixels.
    pub height: u32,
    /// Quiet time before a viewport change triggers recomputation.
    pub debounce_ms: u64,
    /// Start in fullscreen mode.
    pub fullscreen: bool,
    /// Bound on cached tiles; 0 disables caching.
    pub cache_tiles: usize,
    /// Tile edge in cells.
    pub tile_size: u32,
}

/// An explicit initial state with a character other than '0' or '1'.
pub open spec fn spec_initial_state_bad(init: Option<Seq<char>>) -> bool {
    match init {
        Option::Some(s) => s.len() > 0 && exists|i: int|
            0 <= i < s.len() && #[trigger] s[i] != '0' && s[i] != '1',
        Option::None => false,
    }
}

/// Every validation error of a configuration, in the order checked.
pub open spec fn spec_validation_errors(c: &Config) -> Seq<ConfigError> {
    (if spec_initial_state_bad(init_chars(&c.initial_state)) {
        seq![ConfigError::InitialStateNotBinary]
    } else {
        Seq::<ConfigError>::empty()
    }) + (if c.width < 500 {
        seq![ConfigError::WidthTooSmall]
    } else {
        Seq::<ConfigError>::empty()
    }) + (if c.width > 8192 {
        seq![ConfigError::WidthTooLarge]
    } else {
        Seq::<ConfigError>::empty()
    }) + (if c.height < 500 {
        seq![ConfigError::HeightTooSmall]
    } else {
        Seq::<ConfigError>::empty()
    }) + (if c.height > 8192 {
        seq![ConfigError::HeightTooLarge]
    } else {
        Seq::<ConfigError>::empty()
    }) + (if c.cache_tiles > 256 {
        seq![ConfigError::CacheTilesTooMany]
    } else {
        Seq::<ConfigError>::empty()
    }) + (if c.tile_size < 64 {
        seq![ConfigError::TileSizeTooSmall]
    } else {
        Seq::<ConfigError>::empty()
    }) + (if c.tile_size > 1024 {
        seq![ConfigError::TileSizeTooLarge]
    } else {
        Seq::<ConfigError>::empty()
    }) + (if c.tile_size == 0 {
        seq![ConfigError::TileSizeZero]
    } else {
        Seq::<ConfigError>::empty()
    }) + (if c.debounce_ms > 5000 {
        seq![ConfigError::DebounceTooLarge]
    } else {
        Seq::<ConfigError>::empty()
    })
}

impl Config {
    /// Check every parameter bound; return all violations in check order,
    /// or nothing when the configuration is valid.
    #[verifier::rlimit(100)]
    pub fn validate(&self) -> (out: Result<(), Vec<ConfigError>>)
        ensures
            out is Ok <==> spec_validation_errors(self).len() == 0,
            out matches Result::Err(es) ==> es@ == spec_validation_errors(self) && es@.len() > 0,
    {
        let mut errors: Vec<ConfigError> = Vec::new();
        let bad_init: bool = match &self.initial_state {
            Option::None => false,
            Option::Some(s) => {
                let n: usize = s.as_str().unicode_len();
                let mut found = false;
                let mut i: usize = 0;
                while i < n
                    invariant
                        i <= n,
                        n == s@.len(),
                        found <==> exists|k: int|
                            0 <= k < i && #[trigger] s@[k] != '0' && s@[k] != '1',
                    decreases n - i,
                {
                    let ch = s.as_str().get_char(i);
                    if ch != '0' && ch != '1' {
                        found = true;
                    }
                    i = i + 1;
                }
                found && n > 0
            },
        };
        proof {
            assert(bad_init == spec_initial_state_bad(init_chars(&self.initial_state)));
        }
        if bad_init {
            errors.push(ConfigError::InitialStateNotBinary);
        }
        if self.width < 500 {
            errors.push(ConfigError::WidthTooSmall);
        }
        if self.width > 8192 {
            errors.push(ConfigError::WidthTooLarge);
        }
        if self.height < 500 {
            errors.push(ConfigError::HeightTooSmall);
        }
        if self.height > 8192 {
            errors.push(ConfigError::HeightTooLarge);
        }
        if self.cache_tiles > 256 {
            errors.push(ConfigError::CacheTilesTooMany);
        }
        if self.tile_size < 64 {
            errors.push(ConfigError::TileSizeTooSmall);
        }
        if self.tile_size > 1024 {
            errors.push(ConfigError::TileSizeTooLarge);
        }
        if self.tile_size == 0 {
            errors.push(ConfigError::TileSizeZero);
        }
        if self.debounce_ms > 5000 {
            errors.push(ConfigError::DebounceTooLarge);
        }
        proof {
            assert(errors@ =~= spec_validation_errors(self));
        }
        if errors.is_empty() {
            Result::Ok(())
        } else {
            Result::Err(errors)
        }
    }

    /// Clamp the tile size alone into its valid range, substituting the
    /// default for zero.
    pub fn validate_tile_size(&mut self)
        ensures
            final(self).tile_size == spec_clamped_tile_size(old(self).tile_size),
            *final(self) == (Config { tile_size: final(self).tile_size, ..*old(self) }),
    {
        if self.tile_size == 0 {
            self.tile_size = crate::constants::DEFAULT_TILE_SIZE;
        }
        if self.tile_size < 64 {
            self.tile_size = 64;
        }
        if self.tile_size > 1024 {
            self.tile_size = 1024;
        }
    }
}

/// What the tile-size clamp produces: zero becomes the default, and the
/// result lands in the valid range.
pub open spec fn spec_clamped_tile_size(t: u32) -> u32 {
    let t1 = if t == 0 {
        crate::constants::DEFAULT_TILE_SIZE
    } else {
        t
    };
    let t2 = if t1 < 64 {
        64u32
    } else {
        t1
    };
    if t2 > 1024 {
        1024u32
    } else {
        t2
    }
}

impl Default for Config {
    /// The default configuration.
    fn default() -> (out: Self)
        ensures
            out.rule == crate::constants::DEFAULT_RULE,
            out.initial_state is None,
            out.width == crate::constants::DEFAULT_WIDTH,
            out.height == crate::constants::DEFAULT_HEIGHT,
            out.debounce_ms == crate::constants::DEFAULT_DEBOUNCE_MS,
            !out.fullscreen,
            out.cache_tiles == crate::constants::DEFAULT_CACHE_TILES,
            out.tile_size == crate::constants::DEFAULT_TILE_SIZE,
    {
        Config {
            rule: crate::constants::DEFAULT_RULE,
            initial_state: Option::None,
            width: crate::constants::DEFAULT_WIDTH,
            height: crate::constants::DEFAULT_HEIGHT,
            debounce_ms: crate::constants::DEFAULT_DEBOUNCE_MS,
            fullscreen: false,
            cache_tiles: crate::constants::DEFAULT_CACHE_TILES,
            tile_size: crate::constants::DEFAULT_TILE_SIZE,
        }
    }
}

} // verus!

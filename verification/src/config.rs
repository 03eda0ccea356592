//! What a search is set up with, checked before any token is read, and the
//! search that a configuration asks for.

use crate::hashes::{algorithm_named, digest_len, Hashes};
use crate::join::views;
use crate::search::{can_sweep, sweep, sweep_outcome, sweepable, SearchResult};
use crate::target::{parse_target, target_of, TargetError};
use crate::timeaxis::{
    can_sweep_window, sweep_window, window_outcome, window_sweepable, TimedMatch,
};
use crate::timestamp::{parse_window, timestamp_of, window_of, TimeWindow, WindowError};
use vstd::prelude::*;
use vstd::slice::slice_to_vec;
use vstd::string::StringSliceAdditionalSpecFns;

verus! {

/// Why a configuration was turned down.
#[derive(Clone, Copy, Debug, PartialEq, Eq, Structural)]
pub enum ConfigError {
    /// The algorithm's name is none of the known ones.
    Algorithm,
    /// The delimiter is neither empty nor one of the separator characters.
    Delimiter,
    /// An end of the time window is no timestamp.
    Window(WindowError),
    /// The target digest has the wrong length or is not hexadecimal.
    Target(TargetError),
}

/// A checked configuration: the algorithm, the delimiter, the target digest
/// as raw bytes, and the time window if there is one.
#[derive(Debug, PartialEq, Eq)]
pub struct Config {
    pub hash_alg: Hashes,
    pub delimiter: Vec<u8>,
    pub target: Vec<u8>,
    pub window: Option<TimeWindow>,
    /// Whether a search over a window ends with the first second whose sweep
    /// finds a match, or goes on through the later seconds.
    pub stop_at_first: bool,
}

/// What a search reports: the end of the one sweep where there is no time
/// window, and the matches with their seconds where there is one.
#[derive(Debug, PartialEq, Eq)]
pub enum Report {
    Sweep(SearchResult),
    Window(Vec<TimedMatch>),
}

/// The characters that can stand between two tokens:
/// `:`, space, `&`, `,`, `.`, `-`, `_`, `|` and `;`.
pub open spec fn is_separator(byte: u8) -> bool {
    ||| byte == 0x3a
    ||| byte == 0x20
    ||| byte == 0x26
    ||| byte == 0x2c
    ||| byte == 0x2e
    ||| byte == 0x2d
    ||| byte == 0x5f
    ||| byte == 0x7c
    ||| byte == 0x3b
}

/// A delimiter is empty or one separator character.
pub open spec fn is_delimiter(text: Seq<u8>) -> bool {
    text.len() == 0 || (text.len() == 1 && is_separator(text[0]))
}

/// The window that the two timestamps of a configuration stand for, where
/// it has them.
pub open spec fn configured_window(start_end: Option<(&str, &str)>) -> Result<
    Option<TimeWindow>,
    WindowError,
> {
    match start_end {
        None => Ok(None),
        Some((start, end)) => match window_of(timestamp_of(start), timestamp_of(end)) {
            Err(error) => Err(error),
            Ok(window) => Ok(Some(window)),
        },
    }
}

/// What the arguments of a search are checked for, in this order: the name of
/// the algorithm, the delimiter, the two ends of the time window, the length
/// of the target digest, and its digits. The first that fails is the error.
pub open spec fn checked(
    alg_name: &str,
    delimiter: &str,
    match_hash: &str,
    start_end: Option<(&str, &str)>,
) -> Result<(Hashes, Seq<u8>, Seq<u8>, Option<TimeWindow>), ConfigError> {
    match algorithm_named(alg_name@) {
        None => Err(ConfigError::Algorithm),
        Some(alg) => if !is_delimiter(delimiter.spec_bytes()) {
            Err(ConfigError::Delimiter)
        } else {
            match configured_window(start_end) {
                Err(error) => Err(ConfigError::Window(error)),
                Ok(window) => match target_of(alg, match_hash.spec_bytes()) {
                    Err(error) => Err(ConfigError::Target(error)),
                    Ok(target) => Ok((alg, delimiter.spec_bytes(), target, window)),
                },
            }
        },
    }
}

/// The delimiters, each as it is written on a command line.
pub fn delimiters() -> (all: [&'static str; 10])
    ensures
        forall|i: int| 0 <= i < 10 ==> is_delimiter((#[trigger] all@[i]).spec_bytes()),
        forall|text: Seq<u8>|
            is_delimiter(text) ==> exists|i: int|
                0 <= i < 10 && (#[trigger] all@[i]).spec_bytes() == text,
{
    let all = [":", " ", "&", ",", ".", "-", "_", "|", ";", ""];
    proof {
        reveal_strlit(":");
        reveal_strlit(" ");
        reveal_strlit("&");
        reveal_strlit(",");
        reveal_strlit(".");
        reveal_strlit("-");
        reveal_strlit("_");
        reveal_strlit("|");
        reveal_strlit(";");
        reveal_strlit("");
        assert forall|i: int| 0 <= i < 10 implies is_delimiter(
            (#[trigger] all@[i]).spec_bytes(),
        ) by {
            let text = all@[i];
            vstd::string::is_ascii_spec_bytes(text);
        }
        assert forall|text: Seq<u8>| is_delimiter(text) implies exists|i: int|
            0 <= i < 10 && (#[trigger] all@[i]).spec_bytes() == text by {
            let at: int = if text.len() == 0 {
                9
            } else if text[0] == 0x3a {
                0
            } else if text[0] == 0x20 {
                1
            } else if text[0] == 0x26 {
                2
            } else if text[0] == 0x2c {
                3
            } else if text[0] == 0x2e {
                4
            } else if text[0] == 0x2d {
                5
            } else if text[0] == 0x5f {
                6
            } else if text[0] == 0x7c {
                7
            } else {
                8
            };
            vstd::string::is_ascii_spec_bytes(all@[at]);
        }
    }
    all
}

/// Whether `text` is a delimiter.
pub fn valid_delimiter(text: &[u8]) -> (ok: bool)
    ensures
        ok == is_delimiter(text@),
{
    if text.len() == 0 {
        return true;
    }
    if text.len() != 1 {
        return false;
    }
    let byte = text[0];
    byte == 58u8 || byte == 32u8 || byte == 38u8 || byte == 44u8 || byte == 46u8 || byte == 45u8
        || byte == 95u8 || byte == 124u8 || byte == 59u8
}

impl Config {
    /// The configurations that `from_args` gives: a target as long as a
    /// digest of the algorithm, and a delimiter of the accepted kind.
    pub open spec fn wf(&self) -> bool {
        &&& self.target@.len() == digest_len(self.hash_alg)
        &&& is_delimiter(self.delimiter@)
    }

    /// Checks the arguments of a search and puts them into a configuration.
    /// Nothing here reads a file: a configuration is accepted or turned down
    /// before any token is loaded. The search it describes goes through every
    /// second of its window.
    pub fn from_args(
        alg_name: &str,
        delimiter: &str,
        match_hash: &str,
        start_end: Option<(&str, &str)>,
    ) -> (config: Result<Config, ConfigError>)
        ensures
            match config {
                Ok(c) => {
                    &&& checked(alg_name, delimiter, match_hash, start_end) == Ok::<
                        (Hashes, Seq<u8>, Seq<u8>, Option<TimeWindow>),
                        ConfigError,
                    >((c.hash_alg, c.delimiter@, c.target@, c.window))
                    &&& !c.stop_at_first
                    &&& c.wf()
                },
                Err(error) => checked(alg_name, delimiter, match_hash, start_end) == Err::<
                    (Hashes, Seq<u8>, Seq<u8>, Option<TimeWindow>),
                    ConfigError,
                >(error),
            },
    {
        let hash_alg = match Hashes::from_name(alg_name) {
            Some(alg) => alg,
            None => {
                return Err(ConfigError::Algorithm);
            },
        };
        if !valid_delimiter(delimiter.as_bytes()) {
            return Err(ConfigError::Delimiter);
        }
        let window = match start_end {
            None => None,
            Some((start, end)) => match parse_window(start, end) {
                Ok(window) => Some(window),
                Err(error) => {
                    return Err(ConfigError::Window(error));
                },
            },
        };
        let target = match parse_target(hash_alg, match_hash) {
            Ok(target) => target,
            Err(error) => {
                return Err(ConfigError::Target(error));
            },
        };
        Ok(
            Config {
                hash_alg,
                delimiter: slice_to_vec(delimiter.as_bytes()),
                target,
                window,
                stop_at_first: false,
            },
        )
    }

    /// The token sets that the search of this configuration can take.
    pub open spec fn searchable(&self, tokens: Seq<Seq<u8>>) -> bool {
        match self.window {
            None => sweepable(tokens, self.delimiter@),
            Some(window) => window_sweepable(tokens, self.delimiter@, window),
        }
    }

    /// What the search of this configuration owes on the given tokens.
    pub open spec fn outcome(&self, tokens: Seq<Seq<u8>>, report: Report) -> bool {
        match self.window {
            None => report matches Report::Sweep(result) && sweep_outcome(
                self.hash_alg,
                tokens,
                self.delimiter@,
                self.target@,
                result,
            ),
            Some(window) => report matches Report::Window(hits) && window_outcome(
                self.hash_alg,
                tokens,
                self.delimiter@,
                self.target@,
                window,
                self.stop_at_first,
                hits@,
            ),
        }
    }

    /// Whether `search` can take these tokens.
    pub fn can_search(&self, tokens: &[Vec<u8>]) -> (ok: bool)
        ensures
            ok == self.searchable(views(tokens@)),
    {
        match self.window {
            None => can_sweep(tokens, self.delimiter.as_slice()),
            Some(window) => can_sweep_window(tokens, self.delimiter.as_slice(), window),
        }
    }

    /// Runs the search: one sweep over the tokens where the configuration has
    /// no time window, and one sweep for each second of the window where it
    /// has one.
    pub fn search(&self, tokens: &[Vec<u8>]) -> (report: Report)
        requires
            self.searchable(views(tokens@)),
        ensures
            self.outcome(views(tokens@), report),
    {
        match self.window {
            None => Report::Sweep(
                sweep(self.hash_alg, tokens, self.delimiter.as_slice(), self.target.as_slice()),
            ),
            Some(window) => Report::Window(
                sweep_window(
                    self.hash_alg,
                    tokens,
                    self.delimiter.as_slice(),
                    self.target.as_slice(),
                    window,
                    self.stop_at_first,
                ),
            ),
        }
    }
}

} // verus!

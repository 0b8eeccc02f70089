use vstd::prelude::*;

verus! {

/// Usage help shown for `-h`, `--help`, and on a malformed command line.
pub const USAGE: &'static str = "USAGE: salad [OPTION]...

Generate a passphrase from a file containing a list of words.

EXAMPLE
salad -M floyd -min 4 -max 8

DEFAULTS
-m -n 6 -max 12 -min 5

OPTIONS
-h, --help
  Display usage help

-max N
  Ignore words larger than N. N must be less than 256.

-min N
  Ignore words smaller than N. N must be less than 256.

-n N
  Generate a passphrase with N words. N must be less than 256.

-r
  Generate a passphrase of random words. Mutually exclusive with -m and -M.

-m
  Generate a passphrase using a randomly chosen mnemonic. Mutually exclusive with -r and -M.

-M MNEMONIC
  Generate a passphrase using the specified mnemonic. Mutually exclusive with -r and -m. The option -n is ignored if this is used.

-w FILE
  Use a custom word-file. If no custom word-file is provided, salad will look in $HOME/.salad/words first and /etc/salad/words second.
";

/// The ways a passphrase request can fail.  Every failure aborts the whole
/// request: no partial phrase is ever produced, and nothing is retried.
#[derive(Clone, Copy, Debug, PartialEq, Eq, Structural)]
pub enum Problem {
    /// Some slot has no candidate word satisfying its constraints.
    NoMatchingWords,
    /// The entropy device could not be opened.
    OpenRandomFile,
    /// The word file could not be opened.
    OpenWordFile,
    /// Reading from the entropy device failed.
    ReadRandomFile,
    /// Reading a line from the word file failed.
    ReadWordFile,
    /// The word file could not be repositioned to its start.
    SeekStartOfWordFile,
    /// A read from the entropy device returned fewer bytes than required.
    TooFewRandomBytes,
    /// The fetch pass ended before every slot's word was found.
    UnexpectedEndOfWordFile,
    /// The command line was malformed.
    Usage,
    /// A slot's match count does not fit the counter's integer width.
    WordFileTooLarge,
}

impl Problem {
    /// What `message` returns for each failure.
    pub open spec fn message_spec(self) -> Seq<char> {
        match self {
            Problem::NoMatchingWords => "No Matching words found."@,
            Problem::OpenRandomFile => "Can not open random file."@,
            Problem::OpenWordFile => "Can not open word file."@,
            Problem::ReadRandomFile => "Can not read form random file."@,
            Problem::ReadWordFile => "Can not read from word file."@,
            Problem::SeekStartOfWordFile => "Can not seek to start of word file."@,
            Problem::TooFewRandomBytes => "Too few random bytes read."@,
            Problem::UnexpectedEndOfWordFile => "Unexpected end of word file."@,
            Problem::Usage => USAGE@,
            Problem::WordFileTooLarge => "Word file is too large."@,
        }
    }

    /// The message reported for this failure.
    pub fn message(&self) -> (r: &'static str)
        ensures
            r@ == self.message_spec(),
    {
        match self {
            Problem::NoMatchingWords => "No Matching words found.",
            Problem::OpenRandomFile => "Can not open random file.",
            Problem::OpenWordFile => "Can not open word file.",
            Problem::ReadRandomFile => "Can not read form random file.",
            Problem::ReadWordFile => "Can not read from word file.",
            Problem::SeekStartOfWordFile => "Can not seek to start of word file.",
            Problem::TooFewRandomBytes => "Too few random bytes read.",
            Problem::UnexpectedEndOfWordFile => "Unexpected end of word file.",
            Problem::Usage => USAGE,
            Problem::WordFileTooLarge => "Word file is too large.",
        }
    }
}

} // verus!

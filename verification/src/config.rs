//! Configuration for the formatter: the command-line options, their
//! validation, and the formatting configuration proper (line width, indent
//! width, list marker symbol).

use vstd::prelude::*;

verus! {

/// The command-line options, as plain values.
///
/// Reading the file system (whether a path names a regular file) is the
/// caller's work; [`Opt::valid`] takes the outcome of those checks as
/// arguments and decides validity.
#[derive(Debug, Clone)]
pub struct Opt {
    /// Whether the file should be modified in place.
    pub in_place: bool,

    /// The input file to format.
    pub input_file: String,

    /// An optional configuration file path.
    pub config_file: Option<String>,
}

impl Opt {
    /// Return whether the presented command line parameters are valid.
    ///
    /// `input_is_file` must report whether `input_file` names a regular
    /// file, and `config_is_file` the same for `config_file` when one was
    /// given (its value is irrelevant otherwise).
    pub fn valid(&self, input_is_file: bool, config_is_file: bool) -> (r: Result<(), OptError>)
        ensures
            r is Ok <==> (input_is_file && (self.config_file is None || config_is_file)),
            !input_is_file ==> (r matches Err(OptError::InvalidFile { filename, parameter })
                && filename@ == self.input_file@
                && parameter@ == "input_file"@),
            (input_is_file && self.config_file is Some && !config_is_file)
                ==> (r matches Err(OptError::InvalidFile { filename, parameter })
                    && filename@ == self.config_file->Some_0@
                    && parameter@ == "config_file"@),
    {
        if !input_is_file {
            return Err(OptError::InvalidFile {
                filename: self.input_file.clone(),
                parameter: "input_file".to_owned(),
            });
        }

        match &self.config_file {
            Some(config) => {
                if !config_is_file {
                    Err(OptError::InvalidFile {
                        filename: config.clone(),
                        parameter: "config_file".to_owned(),
                    })
                } else {
                    Ok(())
                }
            }
            None => Ok(()),
        }
    }
}

/// Validation errors for command line arguments.
#[derive(Debug)]
pub enum OptError {
    /// A path parameter does not name a regular file.
    InvalidFile {
        /// The offending path.
        filename: String,
        /// The name of the parameter that held it.
        parameter: String,
    },
}

impl OptError {
    /// A human-readable description of the error.
    pub fn message(&self) -> (m: String)
        ensures
            self matches OptError::InvalidFile { filename, parameter }
                ==> m@ == "Invalid file: "@ + filename@ + " for "@ + parameter@,
    {
        match self {
            OptError::InvalidFile { filename, parameter } => {
                let mut m = "Invalid file: ".to_owned();
                m.append(filename.as_str());
                m.append(" for ");
                m.append(parameter.as_str());
                m
            }
        }
    }
}

/// The formatting configuration.
#[derive(Debug, Clone, Copy, PartialEq, Eq, Structural)]
pub struct Config {
    /// The maximum line width for the output, a positive count of characters.
    pub line_width: usize,

    /// The indent width for nested list items; positive and less than
    /// `line_width`.
    pub indent_width: usize,

    /// The symbol that marks list items.
    pub list_delim: ListDelimiter,
}

impl Config {
    /// The constraints the configuration must satisfy: both widths positive,
    /// and the indent narrower than the line.
    pub open spec fn wf(self) -> bool {
        0 < self.indent_width < self.line_width
    }

    /// The default configuration.
    pub open spec fn default_spec() -> Config {
        Config { line_width: 80, indent_width: 4, list_delim: ListDelimiter::Asterisk }
    }

    /// Build a configuration, rejecting widths that violate [`Config::wf`].
    pub fn new(line_width: usize, indent_width: usize, list_delim: ListDelimiter) -> (r: Option<
        Config,
    >)
        ensures
            r is Some <==> (0 < indent_width < line_width),
            r matches Some(c) ==> c == (Config { line_width, indent_width, list_delim }),
            r matches Some(c) ==> c.wf(),
    {
        if 0 < indent_width && indent_width < line_width {
            Some(Config { line_width, indent_width, list_delim })
        } else {
            None
        }
    }

    /// The maximum line width.
    pub fn line_width(&self) -> (w: usize)
        ensures
            w == self.line_width,
    {
        self.line_width
    }

    /// The indent width.
    pub fn indent_width(&self) -> (w: usize)
        ensures
            w == self.indent_width,
    {
        self.indent_width
    }

    /// The list marker symbol.
    pub fn list_delim(&self) -> (d: ListDelimiter)
        ensures
            d == self.list_delim,
    {
        self.list_delim
    }
}

impl Default for Config {
    /// The defaults: line width 80, indent width 4, asterisk list markers.
    fn default() -> (c: Config)
        ensures
            c == Config::default_spec(),
            c.wf(),
    {
        Config { line_width: 80, indent_width: 4, list_delim: ListDelimiter::Asterisk }
    }
}

impl From<Opt> for Config {
    /// Build the configuration for a run.
    ///
    /// Loading an optional configuration file is input work that belongs to
    /// the caller; this conversion ignores the path and yields the defaults.
    fn from(_opt: Opt) -> (c: Config) {
        Config { line_width: 80, indent_width: 4, list_delim: ListDelimiter::Asterisk }
    }
}

impl vstd::std_specs::convert::FromSpecImpl<Opt> for Config {
    open spec fn obeys_from_spec() -> bool {
        true
    }

    open spec fn from_spec(opt: Opt) -> Config {
        Config::default_spec()
    }
}

/// The valid symbols that can denote a markdown list.
#[derive(Debug, Clone, Copy, PartialEq, Eq, Structural)]
pub enum ListDelimiter {
    /// The `*` symbol.
    Asterisk,

    /// The `-` symbol.
    Dash,
}

impl ListDelimiter {
    /// The marker character this symbol renders as.
    pub open spec fn spec_char(self) -> char {
        match self {
            ListDelimiter::Asterisk => '*',
            ListDelimiter::Dash => '-',
        }
    }

    /// The marker as text: `"*"` or `"-"`.
    pub fn as_str(&self) -> (s: &'static str)
        ensures
            s@ == seq![self.spec_char()],
    {
        match self {
            ListDelimiter::Asterisk => {
                let s = "*";
                proof {
                    reveal_strlit("*");
                    assert(s@ =~= seq!['*']);
                }
                s
            }
            ListDelimiter::Dash => {
                let s = "-";
                proof {
                    reveal_strlit("-");
                    assert(s@ =~= seq!['-']);
                }
                s
            }
        }
    }
}

} // verus!

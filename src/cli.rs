use vstd::prelude::*;
use crate::text::chars_of;

verus! {

/// The format of the CQL2 input.
#[derive(Clone, Copy, Debug, PartialEq, Eq, Structural)]
pub enum InputFormat {
    /// cql2-json
    Json,
    /// cql2-text
    Text,
}

/// The format of the CQL2 output.
#[derive(Clone, Copy, Debug, PartialEq, Eq, Structural)]
pub enum OutputFormat {
    /// cql2-json, pretty-printed
    JsonPretty,
    /// cql2-json, compact
    Json,
    /// cql2-text
    Text,
    /// SQL
    Sql,
}

/// The settings of the command-line interface.
#[derive(Debug)]
pub struct Cli {
    /// Path to an NDJSON file to filter with the expression.
    pub filter: Option<String>,
    /// The input CQL2; standard input where absent or `-`.
    pub input: Option<String>,
    /// The input format; detected from the input where absent.
    pub input_format: Option<InputFormat>,
    /// The output format; the input's where absent.
    pub output_format: Option<OutputFormat>,
    /// Whether to validate the expression.
    pub validate: bool,
    /// Whether to reduce the expression.
    pub reduce: bool,
    /// How much detail validation errors give.
    pub verbose: u8,
}

/// Whether a text is cql2-json: its first character after white space is `{`.
pub open spec fn looks_like_json(s: Seq<char>) -> bool {
    exists|i: int|
        0 <= i < s.len() && s[i] == '{' && forall|j: int| 0 <= j < i ==> #[trigger] is_space(s[j])
}

/// The white space that precedes an expression.
pub open spec fn is_space(c: char) -> bool {
    c == ' ' || c == '\t' || c == '\n' || c == '\r'
}

/// The format of an input: cql2-json where it starts with `{` after white space.
pub fn detect_format(s: &str) -> (r: InputFormat)
    ensures
        r == (if looks_like_json(s@) {
            InputFormat::Json
        } else {
            InputFormat::Text
        }),
{
    let cs = chars_of(s);
    let mut i: usize = 0;
    while i < cs.len() && (cs[i] == ' ' || cs[i] == '\t' || cs[i] == '\n' || cs[i] == '\r')
        invariant
            i <= cs.len(),
            forall|j: int| 0 <= j < i ==> #[trigger] is_space(cs@[j]),
        decreases cs.len() - i,
    {
        i = i + 1;
    }
    if i < cs.len() && cs[i] == '{' {
        InputFormat::Json
    } else {
        proof {
            if looks_like_json(cs@) {
                let k = choose|k: int|
                    0 <= k < cs@.len() && cs@[k] == '{' && forall|j: int|
                        0 <= j < k ==> #[trigger] is_space(cs@[j]);
                if k < i {
                    assert(is_space(cs@[k]));
                } else if k > i {
                    assert(is_space(cs@[i as int]));
                }
            }
        }
        InputFormat::Text
    }
}

impl Cli {
    /// Where the input comes from: the given text, or standard input (`None`) where it is
    /// absent or `-`.
    pub fn input_text(&self) -> (r: Option<&String>)
        ensures
            r matches Some(s) ==> self.input == Some(*s) && s@ != "-"@,
            r is None ==> self.input is None || self.input->0@ == "-"@,
    {
        match &self.input {
            Some(s) => if crate::text::str_is(s.as_str(), "-") {
                None
            } else {
                Some(s)
            },
            None => None,
        }
    }

    /// The input format: the one asked for, else the detected one.
    pub fn resolved_input_format(&self, input: &str) -> (r: InputFormat)
        ensures
            self.input_format matches Some(f) ==> r == f,
            self.input_format is None ==> r == (if looks_like_json(input@) {
                InputFormat::Json
            } else {
                InputFormat::Text
            }),
    {
        match self.input_format {
            Some(f) => f,
            None => detect_format(input),
        }
    }

    /// The output format: the one asked for, else that of the input.
    pub fn resolved_output_format(&self, input_format: InputFormat) -> (r: OutputFormat)
        ensures
            self.output_format matches Some(f) ==> r == f,
            self.output_format is None ==> r == (match input_format {
                InputFormat::Json => OutputFormat::Json,
                InputFormat::Text => OutputFormat::Text,
            }),
    {
        match self.output_format {
            Some(f) => f,
            None => match input_format {
                InputFormat::Json => OutputFormat::Json,
                InputFormat::Text => OutputFormat::Text,
            },
        }
    }
}

} // verus!

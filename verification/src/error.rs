//! The library's error type.
use vstd::prelude::*;
use vstd::string::StringExecFns;

verus! {

/// Everything that can go wrong in the library.
#[derive(Debug, Clone, PartialEq, Eq)]
pub enum Error {
    /// A filesystem operation failed at `path` (when known) with `message`.
    Io { path: Option<String>, message: String },
    Scan(String),
    Duplicate(String),
    Report(String),
    History(String),
    Scheduler(String),
    Config(String),
    /// Any other failure, carried as its own message.
    Other(String),
}

/// The human-readable text of an error.
pub open spec fn error_text(e: Error) -> Seq<char> {
    match e {
        Error::Io { path, message } => "io error at "@ + match path {
            Some(p) => "Some(\""@ + escaped(p@) + "\")"@,
            None => "None"@,
        } + ": "@ + message@,
        Error::Scan(m) => "scan failed: "@ + m@,
        Error::Duplicate(m) => "duplicate analysis failed: "@ + m@,
        Error::Report(m) => "report generation failed: "@ + m@,
        Error::History(m) => "history store error: "@ + m@,
        Error::Scheduler(m) => "scheduler error: "@ + m@,
        Error::Config(m) => "configuration error: "@ + m@,
        Error::Other(m) => m@,
    }
}

/// How a character is written inside a quoted, debug-formatted string:
/// quotes, backslashes, and the common control characters get a backslash
/// escape.
pub open spec fn escape_char(c: char) -> Seq<char> {
    if c == '"' {
        seq!['\\', '"']
    } else if c == '\\' {
        seq!['\\', '\\']
    } else if c == '\n' {
        seq!['\\', 'n']
    } else if c == '\r' {
        seq!['\\', 'r']
    } else if c == '\t' {
        seq!['\\', 't']
    } else if c == '\0' {
        seq!['\\', '0']
    } else {
        seq![c]
    }
}

/// The text of `s` with each character escaped as [`escape_char`] writes it.
pub open spec fn escaped(s: Seq<char>) -> Seq<char>
    decreases s.len(),
{
    if s.len() == 0 {
        Seq::empty()
    } else {
        escaped(s.drop_last()) + escape_char(s.last())
    }
}

/// Append `p` to `s`, escaped.
pub(crate) fn append_escaped(s: &mut String, p: &str)
    ensures
        final(s)@ == old(s)@ + escaped(p@),
{
    let n = p.unicode_len();
    let mut i: usize = 0;
    let ghost start = s@;
    assert(p@.take(0) =~= Seq::<char>::empty());
    assert(start + escaped(Seq::<char>::empty()) =~= start);
    while i < n
        invariant
            n == p@.len(),
            i <= n,
            s@ == start + escaped(p@.take(i as int)),
        decreases n - i,
    {
        let c = p.get_char(i);
        let ghost before = s@;
        if c == '"' {
            s.push('\\');
            s.push('"');
        } else if c == '\\' {
            s.push('\\');
            s.push('\\');
        } else if c == '\n' {
            s.push('\\');
            s.push('n');
        } else if c == '\r' {
            s.push('\\');
            s.push('r');
        } else if c == '\t' {
            s.push('\\');
            s.push('t');
        } else if c == '\0' {
            s.push('\\');
            s.push('0');
        } else {
            s.push(c);
        }
        assert(s@ =~= before + escape_char(c));
        assert(p@.take(i + 1).drop_last() =~= p@.take(i as int));
        assert(p@.take(i + 1).last() == c);
        i = i + 1;
    }
    assert(p@.take(n as int) =~= p@);
}

fn prefixed(prefix: &str, m: &String) -> (r: String)
    ensures
        r@ == prefix@ + m@,
{
    let mut s = String::from_str(prefix);
    s.append(m.as_str());
    s
}

impl Error {
    /// The human-readable text of the error.
    pub fn message(&self) -> (r: String)
        ensures
            r@ == error_text(*self),
    {
        match self {
            Error::Io { path, message } => {
                let mut s = String::from_str("io error at ");
                match path {
                    Some(p) => {
                        s.append("Some(\"");
                        append_escaped(&mut s, p.as_str());
                        s.append("\")");
                    },
                    None => {
                        s.append("None");
                    },
                }
                s.append(": ");
                s.append(message.as_str());
                proof {
                    match path {
                        Some(p) => {
                            assert(s@ =~= "io error at "@ + ("Some(\""@ + escaped(p@) + "\")"@) + ": "@ + message@);
                        },
                        None => {},
                    }
                }
                s
            },
            Error::Scan(m) => prefixed("scan failed: ", m),
            Error::Duplicate(m) => prefixed("duplicate analysis failed: ", m),
            Error::Report(m) => prefixed("report generation failed: ", m),
            Error::History(m) => prefixed("history store error: ", m),
            Error::Scheduler(m) => prefixed("scheduler error: ", m),
            Error::Config(m) => prefixed("configuration error: ", m),
            Error::Other(m) => m.clone(),
        }
    }
}

} // verus!

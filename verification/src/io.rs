//! Input and output selection: file paths, the standard streams, and
//! the decisions a command line implies.  Opening the streams is the
//! caller's business; this module only decides and describes.
use vstd::prelude::*;

use vstd::string::StringExecFns;

verus! {

/// Where input comes from.
#[derive(Debug, Clone, PartialEq, Eq)]
pub enum InputSource {
    /// A file, named by its path.
    File(String),
    /// The standard input stream.
    Stdin,
}

impl InputSource {
    /// Decides the input source from an optional path argument: `-`
    /// names the standard input, anything else a file.  Without an
    /// argument the standard input is used when it is not a terminal
    /// (`stdin_is_tty` false); at a terminal there is no source and the
    /// caller shows its help text instead.
    pub fn from_arg(arg: Option<String>, stdin_is_tty: bool) -> (r: Option<InputSource>)
        ensures
            match arg {
                Some(path) => r == if path@ == "-"@ {
                    Some(InputSource::Stdin)
                } else {
                    Some(InputSource::File(path))
                },
                None => r == if stdin_is_tty {
                    None::<InputSource>
                } else {
                    Some(InputSource::Stdin)
                },
            },
    {
        match arg {
            Some(path) => {
                let dash = String::from_str("-");
                if path == dash {
                    Some(InputSource::Stdin)
                } else {
                    Some(InputSource::File(path))
                }
            },
            None => {
                if !stdin_is_tty {
                    Some(InputSource::Stdin)
                } else {
                    None
                }
            },
        }
    }

    /// Describes the source for messages: the path, or `stdin`.
    pub fn description(&self) -> (r: String)
        ensures
            match self {
                InputSource::File(p) => r@ == p@,
                InputSource::Stdin => r@ == "stdin"@,
            },
    {
        match self {
            InputSource::File(path) => path.clone(),
            InputSource::Stdin => String::from_str("stdin"),
        }
    }
}

/// Where output goes.
#[derive(Debug, Clone, PartialEq, Eq)]
pub enum OutputSink {
    /// A file, named by its path.
    File(String),
    /// The standard output stream.
    Stdout,
}

impl OutputSink {
    /// Decides the output sink from an optional path argument: `-` or no
    /// argument names the standard output, anything else a file.  The
    /// standard output is refused when it is a terminal
    /// (`stdout_is_tty`) and `allow_tty` does not override that, so
    /// binary data never lands on a terminal.
    pub fn from_arg(arg: Option<String>, allow_tty: bool, stdout_is_tty: bool) -> (r: Result<
        OutputSink,
        String,
    >)
        ensures
            match arg {
                Some(path) => if path@ == "-"@ {
                    r is Err <==> !allow_tty && stdout_is_tty
                } else {
                    r == Ok::<OutputSink, String>(OutputSink::File(path))
                },
                None => r is Err <==> !allow_tty && stdout_is_tty,
            },
            r is Ok && (arg is None || (arg matches Some(p) && p@ == "-"@)) ==> r == Ok::<
                OutputSink,
                String,
            >(OutputSink::Stdout),
    {
        match arg {
            Some(path) => {
                let dash = String::from_str("-");
                if path == dash {
                    if !allow_tty && stdout_is_tty {
                        return Err(
                            String::from_str(
                                "stdout がターミナルです。ファイルまたはパイプにリダイレクトしてください",
                            ),
                        );
                    }
                    Ok(OutputSink::Stdout)
                } else {
                    Ok(OutputSink::File(path))
                }
            },
            None => {
                if !allow_tty && stdout_is_tty {
                    return Err(
                        String::from_str(
                            "stdout がターミナルです。-o オプションで出力ファイルを指定するか、パイプにリダイレクトしてください",
                        ),
                    );
                }
                Ok(OutputSink::Stdout)
            },
        }
    }

    /// Describes the sink for messages: the path, or `stdout`.
    pub fn description(&self) -> (r: String)
        ensures
            match self {
                OutputSink::File(p) => r@ == p@,
                OutputSink::Stdout => r@ == "stdout"@,
            },
    {
        match self {
            OutputSink::File(path) => path.clone(),
            OutputSink::Stdout => String::from_str("stdout"),
        }
    }

    /// Whether the sink is a file.
    pub fn is_file(&self) -> (r: bool)
        ensures
            r == (self is File),
    {
        match self {
            OutputSink::File(_) => true,
            OutputSink::Stdout => false,
        }
    }
}

} // verus!

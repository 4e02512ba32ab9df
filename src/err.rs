use vstd::prelude::*;

verus! {

/// Everything that can go wrong, each kind with its own exit code.
#[derive(Debug, PartialEq, Eq)]
pub enum RpErr {
    ParseConfigTokenErr(String),
    ParseInputTokenErr(String),
    ParseOpTokenErr(String),
    ParseOutputTokenErr(String),
    ArgParseErr { cmd: String, arg: String, arg_value: String, error: String },
    UnexpectedRemaining { cmd: String, arg: String, remaining: String },
    MissingArg { cmd: String, arg: String },
    ArgNotEnough { cmd: String, arg: String },
    UnclosingMultiArg { cmd: String, arg: String },
    UnexpectedClosingBracket { cmd: String, arg: String },
    UnknownArgs { args: Vec<String> },
    ParseRegexErr { reg: String, err: String },
    ReadClipboardTextErr(String),
    OpenInputFileErr { file: String, err: String },
    ReadFromInputFileErr { file: String, line_no: usize, err: String },
    WriteToClipboardErr(String),
    OpenOutputFileErr { file: String, err: String },
    WriteToOutputFileErr { file: String, item: String, err: String },
    UnexpectedOpeningBracket { cmd: String, arg: String },
}

/// The exit code of each kind of error, counted from one in the order the kinds are declared.
pub open spec fn exit_code_of(e: &RpErr) -> u8 {
    match e {
        RpErr::ParseConfigTokenErr(_) => 1,
        RpErr::ParseInputTokenErr(_) => 2,
        RpErr::ParseOpTokenErr(_) => 3,
        RpErr::ParseOutputTokenErr(_) => 4,
        RpErr::ArgParseErr { .. } => 5,
        RpErr::UnexpectedRemaining { .. } => 6,
        RpErr::MissingArg { .. } => 7,
        RpErr::ArgNotEnough { .. } => 8,
        RpErr::UnclosingMultiArg { .. } => 9,
        RpErr::UnexpectedClosingBracket { .. } => 10,
        RpErr::UnknownArgs { .. } => 11,
        RpErr::ParseRegexErr { .. } => 12,
        RpErr::ReadClipboardTextErr(_) => 13,
        RpErr::OpenInputFileErr { .. } => 14,
        RpErr::ReadFromInputFileErr { .. } => 15,
        RpErr::WriteToClipboardErr(_) => 16,
        RpErr::OpenOutputFileErr { .. } => 17,
        RpErr::WriteToOutputFileErr { .. } => 18,
        RpErr::UnexpectedOpeningBracket { .. } => 19,
    }
}

impl RpErr {
    /// The process exit code for this error; zero is left for success.
    pub fn exit_code(&self) -> (r: u8)
        ensures
            r == exit_code_of(self),
            r > 0,
    {
        match self {
            RpErr::ParseConfigTokenErr(_) => 1,
            RpErr::ParseInputTokenErr(_) => 2,
            RpErr::ParseOpTokenErr(_) => 3,
            RpErr::ParseOutputTokenErr(_) => 4,
            RpErr::ArgParseErr { .. } => 5,
            RpErr::UnexpectedRemaining { .. } => 6,
            RpErr::MissingArg { .. } => 7,
            RpErr::ArgNotEnough { .. } => 8,
            RpErr::UnclosingMultiArg { .. } => 9,
            RpErr::UnexpectedClosingBracket { .. } => 10,
            RpErr::UnknownArgs { .. } => 11,
            RpErr::ParseRegexErr { .. } => 12,
            RpErr::ReadClipboardTextErr(_) => 13,
            RpErr::OpenInputFileErr { .. } => 14,
            RpErr::ReadFromInputFileErr { .. } => 15,
            RpErr::WriteToClipboardErr(_) => 16,
            RpErr::OpenOutputFileErr { .. } => 17,
            RpErr::WriteToOutputFileErr { .. } => 18,
            RpErr::UnexpectedOpeningBracket { .. } => 19,
        }
    }
}

} // verus!

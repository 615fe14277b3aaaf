use vstd::prelude::*;

verus! {

/// The broad class of a failure.
#[derive(Clone, Copy, Debug, PartialEq, Eq, Structural)]
pub enum ErrorKind {
    ArgumentError,
    FileError,
    LexError,
    ParseError,
    UnknownMnemonic,
    OperandCountMismatch,
    OperandTypeMismatch,
}

/// The name under which a kind of failure is reported.
pub open spec fn kind_text(kind: ErrorKind) -> Seq<char> {
    match kind {
        ErrorKind::ArgumentError => "ArgumentError"@,
        ErrorKind::FileError => "FileError"@,
        ErrorKind::LexError => "LexError"@,
        ErrorKind::ParseError => "ParseError"@,
        ErrorKind::UnknownMnemonic => "UnknownMnemonic"@,
        ErrorKind::OperandCountMismatch => "OperandCountMismatch"@,
        ErrorKind::OperandTypeMismatch => "OperandTypeMismatch"@,
    }
}

/// The name under which a kind of failure is reported.
pub fn kind_name(kind: ErrorKind) -> (r: &'static str)
    ensures
        r@ == kind_text(kind),
{
    match kind {
        ErrorKind::ArgumentError => "ArgumentError",
        ErrorKind::FileError => "FileError",
        ErrorKind::LexError => "LexError",
        ErrorKind::ParseError => "ParseError",
        ErrorKind::UnknownMnemonic => "UnknownMnemonic",
        ErrorKind::OperandCountMismatch => "OperandCountMismatch",
        ErrorKind::OperandTypeMismatch => "OperandTypeMismatch",
    }
}

/// A failure with a fixed message.
#[derive(Debug)]
pub struct Error {
    message: &'static str,
    kind: ErrorKind,
}

impl Error {
    pub closed spec fn spec_message(&self) -> Seq<char> {
        self.message@
    }

    pub closed spec fn spec_kind(&self) -> ErrorKind {
        self.kind
    }

    pub fn new(message: &'static str, kind: ErrorKind) -> (r: Error)
        ensures
            r.spec_message() == message@,
            r.spec_kind() == kind,
    {
        Error { message, kind }
    }

    pub fn kind(&self) -> (r: ErrorKind)
        ensures
            r == self.spec_kind(),
    {
        self.kind
    }

    /// The report line: the kind's name, a colon and a space, then the message.
    pub fn format(self) -> (r: String)
        ensures
            r@ == kind_text(self.spec_kind()) + ": "@ + self.spec_message(),
    {
        let mut out = String::from_str(kind_name(self.kind));
        out.append(": ");
        out.append(self.message);
        out
    }
}

/// What went wrong while assembling, as a value of the model.
pub ghost enum Fault {
    Lex { byte: u8, position: usize },
    Syntax { position: usize },
    UnknownMnemonic { text: Seq<u8>, position: usize },
    OperandCountMismatch { position: usize, expected: usize, found: usize },
    OperandTypeMismatch { position: usize },
}

/// The source position of the token a fault points at.
pub open spec fn fault_position(f: Fault) -> usize {
    match f {
        Fault::Lex { position, .. } => position,
        Fault::Syntax { position } => position,
        Fault::UnknownMnemonic { position, .. } => position,
        Fault::OperandCountMismatch { position, .. } => position,
        Fault::OperandTypeMismatch { position } => position,
    }
}

/// A failure while lexing or assembling, with the source position
/// (a byte offset) of the offending token.
#[derive(Debug)]
pub enum AssemblyError {
    /// A byte that starts no token.
    Lex { byte: u8, position: usize },
    /// An instruction that does not start with a mnemonic, or whose
    /// operands are not separated by single commas.
    Syntax { position: usize },
    /// A mnemonic that the opcode table does not hold, spelled as in the source.
    UnknownMnemonic { text: Vec<u8>, position: usize },
    /// An instruction with another number of operands than its entry declares.
    OperandCountMismatch { position: usize, expected: usize, found: usize },
    /// An operand whose text does not denote a value of the declared kind.
    OperandTypeMismatch { position: usize },
}

impl View for AssemblyError {
    type V = Fault;

    open spec fn view(&self) -> Fault {
        match self {
            AssemblyError::Lex { byte, position } => Fault::Lex { byte: *byte, position: *position },
            AssemblyError::Syntax { position } => Fault::Syntax { position: *position },
            AssemblyError::UnknownMnemonic { text, position } => Fault::UnknownMnemonic {
                text: text@,
                position: *position,
            },
            AssemblyError::OperandCountMismatch { position, expected, found } =>
                Fault::OperandCountMismatch {
                    position: *position,
                    expected: *expected,
                    found: *found,
                },
            AssemblyError::OperandTypeMismatch { position } => Fault::OperandTypeMismatch {
                position: *position,
            },
        }
    }
}

impl AssemblyError {
    /// The kind under which this failure is reported.
    pub fn kind(&self) -> (r: ErrorKind)
        ensures
            r == match self@ {
                Fault::Lex { .. } => ErrorKind::LexError,
                Fault::Syntax { .. } => ErrorKind::ParseError,
                Fault::UnknownMnemonic { .. } => ErrorKind::UnknownMnemonic,
                Fault::OperandCountMismatch { .. } => ErrorKind::OperandCountMismatch,
                Fault::OperandTypeMismatch { .. } => ErrorKind::OperandTypeMismatch,
            },
    {
        match self {
            AssemblyError::Lex { .. } => ErrorKind::LexError,
            AssemblyError::Syntax { .. } => ErrorKind::ParseError,
            AssemblyError::UnknownMnemonic { .. } => ErrorKind::UnknownMnemonic,
            AssemblyError::OperandCountMismatch { .. } => ErrorKind::OperandCountMismatch,
            AssemblyError::OperandTypeMismatch { .. } => ErrorKind::OperandTypeMismatch,
        }
    }

    /// The source text of the offending token in `src`, the source that was
    /// assembled: a whole word for a mnemonic or an operand, else one byte.
    pub fn offending_text(&self, src: &[u8]) -> (r: Vec<u8>)
        ensures
            r@ == crate::lexer::token_at(src@, fault_position(self@) as int),
    {
        crate::lexer::token_text(src, self.position())
    }

    /// The source position of the offending token.
    pub fn position(&self) -> (r: usize)
        ensures
            r == fault_position(self@),
    {
        match self {
            AssemblyError::Lex { position, .. } => *position,
            AssemblyError::Syntax { position } => *position,
            AssemblyError::UnknownMnemonic { position, .. } => *position,
            AssemblyError::OperandCountMismatch { position, .. } => *position,
            AssemblyError::OperandTypeMismatch { position } => *position,
        }
    }
}

} // verus!

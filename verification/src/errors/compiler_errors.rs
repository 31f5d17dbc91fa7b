use vstd::prelude::*;

verus! {

/// The ways in which compiling a program can fail.
#[derive(Debug)]
pub enum CompilerErrors {
    /// A call names a function that the symbol table does not hold.
    MissingFunction(String),
    /// An expression or assignment names a variable that is not on the stack.
    MissingVar(String),
    /// A call or a function declaration needs more argument registers than exist.
    OutOfRegisters(),
    /// A built-in function was called with the wrong number of arguments
    /// (the function's name, then the expected count).
    WrongArgs(String, String),
}

/// The mathematical model of a [`CompilerErrors`] value.
pub enum CompilerErrorModel {
    MissingFunction(Seq<char>),
    MissingVar(Seq<char>),
    OutOfRegisters,
    WrongArgs(Seq<char>, Seq<char>),
}

impl View for CompilerErrors {
    type V = CompilerErrorModel;

    open spec fn view(&self) -> CompilerErrorModel {
        match self {
            CompilerErrors::MissingFunction(s) => CompilerErrorModel::MissingFunction(s@),
            CompilerErrors::MissingVar(s) => CompilerErrorModel::MissingVar(s@),
            CompilerErrors::OutOfRegisters() => CompilerErrorModel::OutOfRegisters,
            CompilerErrors::WrongArgs(f, n) => CompilerErrorModel::WrongArgs(f@, n@),
        }
    }
}

/// The human-readable message of an error.
pub open spec fn error_message(e: CompilerErrorModel) -> Seq<char> {
    match e {
        CompilerErrorModel::MissingFunction(f) => "The function `"@ + f + "` is not defined"@,
        CompilerErrorModel::MissingVar(v) => "The variable `"@ + v + "` is not defined"@,
        CompilerErrorModel::OutOfRegisters => "Compiler impl limitation - ran out of registers"@,
        CompilerErrorModel::WrongArgs(f, n) => "The function `"@ + f + "` expects "@ + n
            + " arguments"@,
    }
}

impl CompilerErrors {
    /// Builds a `MissingVar` error for `name`.
    pub fn missing_var(name: &str) -> (e: CompilerErrors)
        ensures
            e@ == CompilerErrorModel::MissingVar(name@),
    {
        CompilerErrors::MissingVar(String::from_str(name))
    }

    /// Builds a `MissingFunction` error for `name`.
    pub fn missing_function(name: &str) -> (e: CompilerErrors)
        ensures
            e@ == CompilerErrorModel::MissingFunction(name@),
    {
        CompilerErrors::MissingFunction(String::from_str(name))
    }

    /// The message that describes the error to the user.
    pub fn message(&self) -> (m: String)
        ensures
            m@ == error_message(self@),
    {
        match self {
            CompilerErrors::MissingFunction(f) => {
                let mut m = String::from_str("The function `");
                m.append(f.as_str());
                m.append("` is not defined");
                m
            },
            CompilerErrors::MissingVar(v) => {
                let mut m = String::from_str("The variable `");
                m.append(v.as_str());
                m.append("` is not defined");
                m
            },
            CompilerErrors::OutOfRegisters() => {
                String::from_str("Compiler impl limitation - ran out of registers")
            },
            CompilerErrors::WrongArgs(f, n) => {
                let mut m = String::from_str("The function `");
                m.append(f.as_str());
                m.append("` expects ");
                m.append(n.as_str());
                m.append(" arguments");
                m
            },
        }
    }
}

} // verus!

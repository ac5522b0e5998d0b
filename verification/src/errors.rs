//! The errors of the wallet, the HTTP status each one is answered with, and
//! the message shown for it.
use vstd::prelude::*;

use vstd::string::StringExecFns;

verus! {

#[derive(Debug)]
pub enum AppError {
    Unauthorized,
    NotFound,
    InvalidInput(String),
    Conflict(String),
    MemoryPoisoned,
    Internal,
}

/// An error with its text as a sequence of characters.
pub enum ErrorModel {
    Unauthorized,
    NotFound,
    InvalidInput(Seq<char>),
    Conflict(Seq<char>),
    MemoryPoisoned,
    Internal,
}

impl View for AppError {
    type V = ErrorModel;

    open spec fn view(&self) -> ErrorModel {
        match self {
            AppError::Unauthorized => ErrorModel::Unauthorized,
            AppError::NotFound => ErrorModel::NotFound,
            AppError::InvalidInput(m) => ErrorModel::InvalidInput(m@),
            AppError::Conflict(m) => ErrorModel::Conflict(m@),
            AppError::MemoryPoisoned => ErrorModel::MemoryPoisoned,
            AppError::Internal => ErrorModel::Internal,
        }
    }
}

/// The HTTP status code that answers an error.
pub open spec fn status_of(e: ErrorModel) -> u16 {
    match e {
        ErrorModel::Unauthorized => 401,
        ErrorModel::NotFound => 404,
        ErrorModel::InvalidInput(_) => 400,
        ErrorModel::Conflict(_) => 409,
        ErrorModel::MemoryPoisoned => 500,
        ErrorModel::Internal => 500,
    }
}

/// The message shown for an error.
pub open spec fn message_of(e: ErrorModel) -> Seq<char> {
    match e {
        ErrorModel::Unauthorized => "nao autorizado"@,
        ErrorModel::NotFound => "registro nao encontrado"@,
        ErrorModel::InvalidInput(m) => "entrada invalida: "@ + m,
        ErrorModel::Conflict(m) => "conflito: "@ + m,
        ErrorModel::MemoryPoisoned => "erro de memoria compartilhada"@,
        ErrorModel::Internal => "erro interno"@,
    }
}

impl AppError {
    /// The HTTP status code this error is answered with.
    pub fn status_code(&self) -> (code: u16)
        ensures
            code == status_of(self@),
    {
        match self {
            AppError::Unauthorized => 401,
            AppError::NotFound => 404,
            AppError::InvalidInput(_) => 400,
            AppError::Conflict(_) => 409,
            AppError::MemoryPoisoned => 500,
            AppError::Internal => 500,
        }
    }

    /// The message shown for this error.
    pub fn message(&self) -> (text: String)
        ensures
            text@ == message_of(self@),
    {
        match self {
            AppError::Unauthorized => String::from_str("nao autorizado"),
            AppError::NotFound => String::from_str("registro nao encontrado"),
            AppError::InvalidInput(m) => {
                let mut t = String::from_str("entrada invalida: ");
                t.append(m.as_str());
                t
            },
            AppError::Conflict(m) => {
                let mut t = String::from_str("conflito: ");
                t.append(m.as_str());
                t
            },
            AppError::MemoryPoisoned => String::from_str("erro de memoria compartilhada"),
            AppError::Internal => String::from_str("erro interno"),
        }
    }
}

} // verus!

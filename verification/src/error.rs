use vstd::prelude::*;

verus! {

/// The closed set of reasons for which a fit is refused.
#[derive(Debug, Clone, Copy, PartialEq, Eq, Structural)]
pub enum LinearRegressionError {
    /// The series holds no sample.
    EmptyData,
    /// The series holds a single sample, which determines no line.
    InsufficientData,
    /// The least-squares denominator is zero.
    InvalidInput,
}

impl LinearRegressionError {
    /// The text shown for each kind of failure.
    pub open spec fn message_text(self) -> Seq<char> {
        match self {
            LinearRegressionError::EmptyData => "Dados vazios fornecidos"@,
            LinearRegressionError::InsufficientData => "Dados insuficientes para análise"@,
            LinearRegressionError::InvalidInput => "Entrada inválida"@,
        }
    }

    /// A human-readable description of the failure.
    pub fn message(&self) -> (text: String)
        ensures
            text@ == self.message_text(),
    {
        match self {
            LinearRegressionError::EmptyData => "Dados vazios fornecidos".to_owned(),
            LinearRegressionError::InsufficientData => {
                "Dados insuficientes para análise".to_owned()
            },
            LinearRegressionError::InvalidInput => "Entrada inválida".to_owned(),
        }
    }
}

} // verus!

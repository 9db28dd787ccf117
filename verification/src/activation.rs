use vstd::prelude::*;

verus! {

/// What a layer applies to each weighted sum before it hands it on.
#[derive(Debug, Clone, Copy, PartialEq, Eq, Structural)]
pub enum ActivationFunction {
    /// The sum as it is.
    Identity,
    /// The sum, or 0 where it is negative.
    Relu,
    /// The logistic function of the sum.
    Sigmoid,
    /// The exponentials of a layer's sums, scaled to add up to 1.
    Softmax,
}

impl ActivationFunction {
    /// The name under which this function is printed.
    pub open spec fn name_spec(self) -> Seq<char> {
        match self {
            ActivationFunction::Identity => "identity"@,
            ActivationFunction::Relu => "relu"@,
            ActivationFunction::Sigmoid => "sigmoid"@,
            ActivationFunction::Softmax => "softmax"@,
        }
    }

    /// The name under which this function is printed.
    pub fn name(&self) -> (s: String)
        ensures
            s@ == self.name_spec(),
    {
        match self {
            ActivationFunction::Identity => "identity".to_owned(),
            ActivationFunction::Relu => "relu".to_owned(),
            ActivationFunction::Sigmoid => "sigmoid".to_owned(),
            ActivationFunction::Softmax => "softmax".to_owned(),
        }
    }
}

} // verus!

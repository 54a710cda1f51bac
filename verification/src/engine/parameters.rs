use vstd::prelude::*;

verus! {

/// The values a task parameter may take. A floating-point bound is held by the bits of its
/// IEEE-754 double.
pub enum ParameterType {
    Integer { min: Option<i64>, max: Option<i64> },
    Float { min: Option<u64>, max: Option<u64> },
    Boolean,
    Select { options: Vec<String> },
}

/// A named parameter of a task.
pub struct ParameterDescription {
    pub name: String,
    pub values: ParameterType,
}

impl ParameterDescription {
    pub fn new(name: String, values: ParameterType) -> (r: Self)
        ensures
            r.name == name,
            r.values == values,
    {
        ParameterDescription { name, values }
    }
}

/// The value of a task parameter. A floating-point value is held by the bits of its IEEE-754
/// double.
pub enum ParameterValue {
    Integer(i64),
    Float(u64),
    Boolean(bool),
    Select(String),
}

impl ParameterValue {
    /// The integer value, if this is one.
    pub fn int_value(&self) -> (r: Option<i64>)
        ensures
            r == match self { ParameterValue::Integer(v) => Some(*v), _ => None },
    {
        match self {
            ParameterValue::Integer(v) => Some(*v),
            _ => None,
        }
    }

    /// The bits of the floating-point value, if this is one.
    pub fn float(&self) -> (r: Option<u64>)
        ensures
            r == match self { ParameterValue::Float(v) => Some(*v), _ => None },
    {
        match self {
            ParameterValue::Float(v) => Some(*v),
            _ => None,
        }
    }

    /// The Boolean value, if this is one.
    pub fn bool(&self) -> (r: Option<bool>)
        ensures
            r == match self { ParameterValue::Boolean(v) => Some(*v), _ => None },
    {
        match self {
            ParameterValue::Boolean(v) => Some(*v),
            _ => None,
        }
    }

    /// The selected option, if this is a selection.
    pub fn select(&self) -> (r: Option<&String>)
        ensures
            match self {
                ParameterValue::Select(v) => r == Some(v),
                _ => r is None,
            },
    {
        match self {
            ParameterValue::Select(v) => Some(v),
            _ => None,
        }
    }
}

} // verus!

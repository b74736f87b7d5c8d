use vstd::prelude::*;

verus! {

/// Handle to a callable shell of a [`Runtime`](crate::Runtime).
#[derive(Clone, Copy, Debug, PartialEq, Eq, Structural)]
pub struct Function {
    pub id: usize,
}

/// Handle to a userdata shell of a [`Runtime`](crate::Runtime).
#[derive(Clone, Copy, Debug, PartialEq, Eq, Structural)]
pub struct AnyUserData {
    pub id: usize,
}

/// Names of the meta entries of an object's descriptor.
#[derive(Clone, Copy, Debug, PartialEq, Eq, Structural)]
pub enum MetaMethod {
    Add,
    Sub,
    Mul,
    Div,
    Unm,
    Concat,
    Len,
    Eq,
    Lt,
    Le,
    Index,
    NewIndex,
    Call,
    ToString,
}

/// Script-side values, as far as this bridge inspects them.
#[derive(Clone, Copy, Debug, PartialEq, Eq, Structural)]
pub enum Value {
    Nil,
    Boolean(bool),
    Integer(i64),
    Table(u64),
    Function(Function),
    UserData(AnyUserData),
}

impl Value {
    /// Whether the value may stand under `__index` or `__newindex`.
    pub open spec fn is_index_target(self) -> bool {
        self is Nil || self is Table || self is Function
    }

    pub fn is_index_target_exec(&self) -> (r: bool)
        ensures
            r == self.is_index_target(),
    {
        match self {
            Value::Nil | Value::Table(_) | Value::Function(_) => true,
            _ => false,
        }
    }
}

} // verus!

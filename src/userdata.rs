use vstd::prelude::*;

use crate::error::Error;
use crate::value::{MetaMethod, Value};

verus! {

/// One method or function declared for an object without a global type, with
/// the host closure that implements it.
pub enum NonStaticMethod<T> {
    /// Receives the object, borrowed shared.
    Method(T),
    /// Receives the object, borrowed mutably; runs one call at a time.
    MethodMut(T),
    /// Receives no object.
    Function(T),
    /// Receives no object; runs one call at a time.
    FunctionMut(T),
}

impl<T> NonStaticMethod<T> {
    pub open spec fn is_mutable(self) -> bool {
        self is MethodMut || self is FunctionMut
    }

    pub open spec fn takes_self(self) -> bool {
        self is Method || self is MethodMut
    }

    pub open spec fn closure(self) -> T {
        match self {
            NonStaticMethod::Method(c) => c,
            NonStaticMethod::MethodMut(c) => c,
            NonStaticMethod::Function(c) => c,
            NonStaticMethod::FunctionMut(c) => c,
        }
    }

    /// Splits the declaration into its closure, whether it is mutable, and
    /// whether it receives the object.
    pub fn into_parts(self) -> (r: (T, bool, bool))
        ensures
            r == (self.closure(), self.is_mutable(), self.takes_self()),
    {
        match self {
            NonStaticMethod::Method(c) => (c, false, true),
            NonStaticMethod::MethodMut(c) => (c, true, true),
            NonStaticMethod::Function(c) => (c, false, false),
            NonStaticMethod::FunctionMut(c) => (c, true, false),
        }
    }
}

/// The methods declared for an object without a global type, in order.
pub struct NonStaticUserDataMethods<T> {
    pub methods: Vec<(Vec<u8>, NonStaticMethod<T>)>,
    pub meta_methods: Vec<(MetaMethod, NonStaticMethod<T>)>,
}

/// The fields declared for an object without a global type, in order.
pub struct NonStaticUserDataFields<T> {
    pub field_getters: Vec<(Vec<u8>, NonStaticMethod<T>)>,
    pub field_setters: Vec<(Vec<u8>, NonStaticMethod<T>)>,
    pub meta_fields: Vec<(MetaMethod, Value)>,
}

impl<T> Default for NonStaticUserDataMethods<T> {
    fn default() -> (r: NonStaticUserDataMethods<T>)
        ensures
            r.methods@.len() == 0,
            r.meta_methods@.len() == 0,
    {
        NonStaticUserDataMethods { methods: Vec::new(), meta_methods: Vec::new() }
    }
}

impl<T> Default for NonStaticUserDataFields<T> {
    fn default() -> (r: NonStaticUserDataFields<T>)
        ensures
            r.field_getters@.len() == 0,
            r.field_setters@.len() == 0,
            r.meta_fields@.len() == 0,
    {
        NonStaticUserDataFields {
            field_getters: Vec::new(),
            field_setters: Vec::new(),
            meta_fields: Vec::new(),
        }
    }
}

impl<T> NonStaticUserDataMethods<T> {
    fn push_method(&mut self, name: &[u8], m: NonStaticMethod<T>)
        ensures
            final(self).methods@.len() == old(self).methods@.len() + 1,
            final(self).methods@.drop_last() == old(self).methods@,
            final(self).methods@.last().0@ == name@,
            final(self).methods@.last().1 == m,
            final(self).meta_methods@ == old(self).meta_methods@,
    {
        let n = vstd::slice::slice_to_vec(name);
        self.methods.push((n, m));
        proof {
            assert(self.methods@.drop_last() =~= old(self).methods@);
        }
    }

    fn push_meta(&mut self, meta: MetaMethod, m: NonStaticMethod<T>)
        ensures
            final(self).meta_methods@ == old(self).meta_methods@.push((meta, m)),
            final(self).methods@ == old(self).methods@,
    {
        self.meta_methods.push((meta, m));
    }

    /// Declares a method that borrows the object shared.
    pub fn add_method(&mut self, name: &[u8], method: T)
        ensures
            final(self).methods@.len() == old(self).methods@.len() + 1,
            final(self).methods@.drop_last() == old(self).methods@,
            final(self).methods@.last().0@ == name@,
            final(self).methods@.last().1 == NonStaticMethod::Method(method),
            final(self).meta_methods@ == old(self).meta_methods@,
    {
        self.push_method(name, NonStaticMethod::Method(method));
    }

    /// Declares a method that borrows the object mutably.
    pub fn add_method_mut(&mut self, name: &[u8], method: T)
        ensures
            final(self).methods@.len() == old(self).methods@.len() + 1,
            final(self).methods@.drop_last() == old(self).methods@,
            final(self).methods@.last().0@ == name@,
            final(self).methods@.last().1 == NonStaticMethod::MethodMut(method),
            final(self).meta_methods@ == old(self).meta_methods@,
    {
        self.push_method(name, NonStaticMethod::MethodMut(method));
    }

    /// Declares a function that receives no object.
    pub fn add_function(&mut self, name: &[u8], function: T)
        ensures
            final(self).methods@.len() == old(self).methods@.len() + 1,
            final(self).methods@.drop_last() == old(self).methods@,
            final(self).methods@.last().0@ == name@,
            final(self).methods@.last().1 == NonStaticMethod::Function(function),
            final(self).meta_methods@ == old(self).meta_methods@,
    {
        self.push_method(name, NonStaticMethod::Function(function));
    }

    /// Declares a mutable function that receives no object.
    pub fn add_function_mut(&mut self, name: &[u8], function: T)
        ensures
            final(self).methods@.len() == old(self).methods@.len() + 1,
            final(self).methods@.drop_last() == old(self).methods@,
            final(self).methods@.last().0@ == name@,
            final(self).methods@.last().1 == NonStaticMethod::FunctionMut(function),
            final(self).meta_methods@ == old(self).meta_methods@,
    {
        self.push_method(name, NonStaticMethod::FunctionMut(function));
    }

    /// Declares a meta method that borrows the object shared.
    pub fn add_meta_method(&mut self, meta: MetaMethod, method: T)
        ensures
            final(self).meta_methods@ == old(self).meta_methods@.push(
                (meta, NonStaticMethod::Method(method)),
            ),
            final(self).methods@ == old(self).methods@,
    {
        self.push_meta(meta, NonStaticMethod::Method(method));
    }

    /// Declares a meta method that borrows the object mutably.
    pub fn add_meta_method_mut(&mut self, meta: MetaMethod, method: T)
        ensures
            final(self).meta_methods@ == old(self).meta_methods@.push(
                (meta, NonStaticMethod::MethodMut(method)),
            ),
            final(self).methods@ == old(self).methods@,
    {
        self.push_meta(meta, NonStaticMethod::MethodMut(method));
    }

    /// Declares a meta function that receives no object.
    pub fn add_meta_function(&mut self, meta: MetaMethod, function: T)
        ensures
            final(self).meta_methods@ == old(self).meta_methods@.push(
                (meta, NonStaticMethod::Function(function)),
            ),
            final(self).methods@ == old(self).methods@,
    {
        self.push_meta(meta, NonStaticMethod::Function(function));
    }

    /// Declares a mutable meta function that receives no object.
    pub fn add_meta_function_mut(&mut self, meta: MetaMethod, function: T)
        ensures
            final(self).meta_methods@ == old(self).meta_methods@.push(
                (meta, NonStaticMethod::FunctionMut(function)),
            ),
            final(self).methods@ == old(self).methods@,
    {
        self.push_meta(meta, NonStaticMethod::FunctionMut(function));
    }
}

impl<T> NonStaticUserDataFields<T> {
    /// Declares a field getter that borrows the object shared.
    pub fn add_field_method_get(&mut self, name: &[u8], method: T)
        ensures
            final(self).field_getters@.len() == old(self).field_getters@.len() + 1,
            final(self).field_getters@.drop_last() == old(self).field_getters@,
            final(self).field_getters@.last().0@ == name@,
            final(self).field_getters@.last().1 == NonStaticMethod::Method(method),
            final(self).field_setters@ == old(self).field_setters@,
            final(self).meta_fields@ == old(self).meta_fields@,
    {
        let n = vstd::slice::slice_to_vec(name);
        self.field_getters.push((n, NonStaticMethod::Method(method)));
        proof {
            assert(self.field_getters@.drop_last() =~= old(self).field_getters@);
        }
    }

    /// Declares a field setter that borrows the object mutably.
    pub fn add_field_method_set(&mut self, name: &[u8], method: T)
        ensures
            final(self).field_setters@.len() == old(self).field_setters@.len() + 1,
            final(self).field_setters@.drop_last() == old(self).field_setters@,
            final(self).field_setters@.last().0@ == name@,
            final(self).field_setters@.last().1 == NonStaticMethod::MethodMut(method),
            final(self).field_getters@ == old(self).field_getters@,
            final(self).meta_fields@ == old(self).meta_fields@,
    {
        let n = vstd::slice::slice_to_vec(name);
        self.field_setters.push((n, NonStaticMethod::MethodMut(method)));
        proof {
            assert(self.field_setters@.drop_last() =~= old(self).field_setters@);
        }
    }

    /// Declares a field getter that receives the object as a plain argument.
    pub fn add_field_function_get(&mut self, name: &[u8], function: T)
        ensures
            final(self).field_getters@.len() == old(self).field_getters@.len() + 1,
            final(self).field_getters@.drop_last() == old(self).field_getters@,
            final(self).field_getters@.last().0@ == name@,
            final(self).field_getters@.last().1 == NonStaticMethod::Function(function),
            final(self).field_setters@ == old(self).field_setters@,
            final(self).meta_fields@ == old(self).meta_fields@,
    {
        let n = vstd::slice::slice_to_vec(name);
        self.field_getters.push((n, NonStaticMethod::Function(function)));
        proof {
            assert(self.field_getters@.drop_last() =~= old(self).field_getters@);
        }
    }

    /// Declares a mutable field setter that receives the object as a plain argument.
    pub fn add_field_function_set(&mut self, name: &[u8], function: T)
        ensures
            final(self).field_setters@.len() == old(self).field_setters@.len() + 1,
            final(self).field_setters@.drop_last() == old(self).field_setters@,
            final(self).field_setters@.last().0@ == name@,
            final(self).field_setters@.last().1 == NonStaticMethod::FunctionMut(function),
            final(self).field_getters@ == old(self).field_getters@,
            final(self).meta_fields@ == old(self).meta_fields@,
    {
        let n = vstd::slice::slice_to_vec(name);
        self.field_setters.push((n, NonStaticMethod::FunctionMut(function)));
        proof {
            assert(self.field_setters@.drop_last() =~= old(self).field_setters@);
        }
    }

    /// Declares a meta field with the value the host computed for it. It is
    /// checked when the object is created.
    pub fn add_meta_field_with(&mut self, meta: MetaMethod, value: Value)
        ensures
            final(self).meta_fields@ == old(self).meta_fields@.push((meta, value)),
            final(self).field_getters@ == old(self).field_getters@,
            final(self).field_setters@ == old(self).field_setters@,
    {
        self.meta_fields.push((meta, value));
    }
}

/// The error for meta field `f`, if its value cannot stand there: `__index` and
/// `__newindex` take only nil, a table or a function.
pub open spec fn meta_field_error(f: (MetaMethod, Value)) -> Option<Error> {
    if (f.0 == MetaMethod::Index || f.0 == MetaMethod::NewIndex) && !f.1.is_index_target() {
        Some(Error::MetaMethodTypeError { method: f.0, value: f.1 })
    } else {
        None
    }
}

/// The error for the first meta field in `fields` whose value cannot stand there.
pub open spec fn first_meta_field_error(fields: Seq<(MetaMethod, Value)>) -> Option<Error>
    decreases fields.len(),
{
    if fields.len() == 0 {
        None
    } else if meta_field_error(fields[0]) is Some {
        meta_field_error(fields[0])
    } else {
        first_meta_field_error(fields.drop_first())
    }
}

/// Checks one meta field.
pub fn check_meta_field(meta: MetaMethod, value: Value) -> (r: Result<(), Error>)
    ensures
        match meta_field_error((meta, value)) {
            Some(e) => r == Err::<(), Error>(e),
            None => r is Ok,
        },
{
    let restricted = match meta {
        MetaMethod::Index | MetaMethod::NewIndex => true,
        _ => false,
    };
    if restricted && !value.is_index_target_exec() {
        Err(Error::MetaMethodTypeError { method: meta, value })
    } else {
        Ok(())
    }
}

/// Checks meta fields in order, and reports the first that cannot stand.
pub fn check_meta_fields(fields: &Vec<(MetaMethod, Value)>) -> (r: Result<(), Error>)
    ensures
        match first_meta_field_error(fields@) {
            Some(e) => r == Err::<(), Error>(e),
            None => r is Ok,
        },
{
    let n = fields.len();
    let mut i: usize = 0;
    proof {
        assert(fields@.subrange(0, n as int) =~= fields@);
    }
    while i < n
        invariant
            n == fields@.len(),
            i <= n,
            first_meta_field_error(fields@) == first_meta_field_error(fields@.subrange(i as int, n as int)),
        decreases n - i,
    {
        proof {
            assert(fields@.subrange(i as int, n as int).drop_first() =~= fields@.subrange(
                i as int + 1,
                n as int,
            ));
        }
        let (meta, value) = fields[i];
        match check_meta_field(meta, value) {
            Err(e) => {
                return Err(e);
            },
            Ok(()) => {},
        }
        i = i + 1;
    }
    proof {
        assert(fields@.subrange(n as int, n as int).len() == 0);
    }
    Ok(())
}

} // verus!

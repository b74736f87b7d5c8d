use mlua_scope::{
    AnyUserData, Error, Function, Invocation, MetaMethod, NonStaticUserDataFields,
    NonStaticUserDataMethods, Runtime, Scope, ShellKind, Value,
};

#[derive(Debug, PartialEq)]
enum Host {
    Buffer(Vec<u8>),
    Get,
    Put,
    Step(u32),
    Computation(u32),
}

fn buffer_methods() -> NonStaticUserDataMethods<Host> {
    let mut methods = NonStaticUserDataMethods::default();
    methods.add_method(b"len", Host::Get);
    methods.add_method_mut(b"push", Host::Put);
    methods
}

fn buffer_fields() -> NonStaticUserDataFields<Host> {
    let mut fields = NonStaticUserDataFields::default();
    fields.add_field_method_get(b"size", Host::Get);
    fields.add_field_method_set(b"size", Host::Put);
    fields
}

fn this(ud: AnyUserData) -> Option<Value> {
    Some(Value::UserData(ud))
}

#[test]
fn counter_callback_runs_three_times_then_expires() {
    let mut counter: u32 = 0;
    {
        let mut rt: Runtime<&mut u32> = Runtime::new();
        let mut scope = Scope::new(&mut rt);
        let f = scope.create_function_mut(&mut rt, &mut counter).unwrap();
        for _ in 0..3 {
            match rt.invoke(f, None) {
                Ok(Invocation::Exclusive(c)) => {
                    *c += 1;
                    rt.finish(f, Invocation::Exclusive(c));
                }
                _ => panic!("the callback should run"),
            }
        }
        scope.close(&mut rt);
        assert!(matches!(rt.invoke(f, None), Err(Error::CallbackDestructed)));
        assert!(rt.is_inert(f.id));
    }
    assert_eq!(counter, 3);
}

#[test]
fn reentrant_mutable_callback_fails() {
    let mut rt: Runtime<Host> = Runtime::new();
    let mut scope = Scope::new(&mut rt);
    let f = scope.create_function_mut(&mut rt, Host::Step(0)).unwrap();
    let first = rt.invoke(f, None).unwrap();
    assert!(matches!(first, Invocation::Exclusive(Host::Step(0))));
    assert!(matches!(rt.invoke(f, None), Err(Error::RecursiveMutCallback)));
    rt.finish(f, first);
    assert!(matches!(rt.invoke(f, None), Ok(Invocation::Exclusive(Host::Step(0)))));
}

#[test]
fn shared_callback_may_reenter() {
    let mut rt: Runtime<Host> = Runtime::new();
    let mut scope = Scope::new(&mut rt);
    let f = scope.create_function(&mut rt, Host::Step(7)).unwrap();
    assert!(matches!(rt.invoke(f, None), Ok(Invocation::Shared)));
    assert!(matches!(rt.invoke(f, None), Ok(Invocation::Shared)));
    assert_eq!(rt.callback_state(f), Some(&Host::Step(7)));
    rt.finish(f, Invocation::Shared);
    rt.finish(f, Invocation::Shared);
}

#[test]
fn method_of_one_object_rejects_another_self() {
    let mut rt: Runtime<Host> = Runtime::new();
    let mut scope = Scope::new(&mut rt);
    let o1 = scope
        .create_nonstatic_userdata(&mut rt, Host::Buffer(vec![1]), buffer_methods(), NonStaticUserDataFields::default())
        .unwrap();
    let o2 = scope
        .create_nonstatic_userdata(&mut rt, Host::Buffer(vec![2, 2]), buffer_methods(), NonStaticUserDataFields::default())
        .unwrap();
    let len1 = rt.get_method(o1, b"len").unwrap();
    let len2 = rt.get_method(o2, b"len").unwrap();
    assert_ne!(len1, len2);
    assert!(rt.get_method(o1, b"missing").is_none());
    assert!(matches!(rt.invoke(len1, this(o2)), Err(Error::UserDataTypeMismatch)));
    assert!(matches!(rt.invoke(len1, None), Err(Error::UserDataTypeMismatch)));
    assert!(matches!(rt.invoke(len1, Some(Value::Integer(1))), Err(Error::UserDataTypeMismatch)));
    assert!(matches!(rt.invoke(len1, this(o1)), Ok(Invocation::Shared)));
    assert_eq!(rt.receiver_value(len1), Some(&Host::Buffer(vec![1])));
    rt.finish(len1, Invocation::Shared);
}

#[test]
fn setter_then_getter_reflects_the_change() {
    let mut rt: Runtime<Host> = Runtime::new();
    let mut scope = Scope::new(&mut rt);
    let o = scope
        .create_nonstatic_userdata(&mut rt, Host::Buffer(vec![5]), NonStaticUserDataMethods::default(), buffer_fields())
        .unwrap();
    let d = rt.descriptor_of(o).unwrap();
    let getter = rt.descriptor(d).getters.as_ref().unwrap()[0].1;
    let setter = rt.descriptor(d).setters.as_ref().unwrap()[0].1;
    assert!(rt.descriptor(d).methods.is_none());
    assert_eq!(rt.descriptor(d).getters.as_ref().unwrap()[0].0, b"size".to_vec());

    assert!(matches!(rt.invoke(getter, this(o)), Ok(Invocation::Shared)));
    assert_eq!(rt.receiver_value(getter), Some(&Host::Buffer(vec![5])));
    rt.finish(getter, Invocation::Shared);

    match rt.invoke(setter, this(o)) {
        Ok(Invocation::ExclusiveMethod(state, Host::Buffer(mut b))) => {
            assert_eq!(state, Host::Put);
            b.push(6);
            rt.finish(setter, Invocation::ExclusiveMethod(state, Host::Buffer(b)));
        }
        _ => panic!("the setter should run"),
    }
    assert!(matches!(rt.invoke(getter, this(o)), Ok(Invocation::Shared)));
    assert_eq!(rt.receiver_value(getter), Some(&Host::Buffer(vec![5, 6])));
    rt.finish(getter, Invocation::Shared);
}

#[test]
fn running_mutable_method_blocks_other_borrows() {
    let mut rt: Runtime<Host> = Runtime::new();
    let mut scope = Scope::new(&mut rt);
    let o = scope
        .create_nonstatic_userdata(&mut rt, Host::Buffer(vec![]), buffer_methods(), NonStaticUserDataFields::default())
        .unwrap();
    let len = rt.get_method(o, b"len").unwrap();
    let push = rt.get_method(o, b"push").unwrap();
    let running = rt.invoke(push, this(o)).unwrap();
    assert!(matches!(rt.invoke(push, this(o)), Err(Error::RecursiveMutCallback)));
    assert!(matches!(rt.invoke(len, this(o)), Err(Error::UserDataBorrowError)));
    rt.finish(push, running);
    assert!(matches!(rt.invoke(len, this(o)), Ok(Invocation::Shared)));
    assert!(matches!(rt.invoke(push, this(o)), Err(Error::UserDataBorrowMutError)));
    rt.finish(len, Invocation::Shared);
    assert!(matches!(rt.invoke(push, this(o)), Ok(Invocation::ExclusiveMethod(Host::Put, Host::Buffer(_)))));
}

#[test]
fn teardown_strips_every_shell_before_dropping() {
    let mut rt: Runtime<Host> = Runtime::new();
    let mut scope = Scope::new(&mut rt);
    let f1 = scope.create_function(&mut rt, Host::Step(1)).unwrap();
    let u2 = scope.create_userdata(&mut rt, Host::Buffer(vec![2])).unwrap();
    let f3 = scope.create_function_mut(&mut rt, Host::Step(3)).unwrap();
    assert_eq!(scope.resource_count(), 3);
    assert!(!rt.is_inert(f1.id));
    let to_drop = scope.invalidate(&mut rt);
    assert_eq!(scope.resource_count(), 0);
    assert!(rt.is_inert(f1.id));
    assert!(rt.is_inert(u2.id));
    assert!(rt.is_inert(f3.id));
    assert!(!rt.shell(f1.id).runtime_ref);
    assert_eq!(to_drop, vec![Host::Step(1), Host::Buffer(vec![2]), Host::Step(3)]);
}

#[test]
fn everything_fails_cleanly_after_scope_end() {
    let mut rt: Runtime<Host> = Runtime::new();
    let mut scope = Scope::new(&mut rt);
    let f = scope.create_function(&mut rt, Host::Step(1)).unwrap();
    let a = scope.create_async_function(&mut rt, Host::Step(2)).unwrap();
    let u = scope.create_userdata(&mut rt, Host::Buffer(vec![1])).unwrap();
    let o = scope
        .create_nonstatic_userdata(&mut rt, Host::Buffer(vec![]), buffer_methods(), NonStaticUserDataFields::default())
        .unwrap();
    let len = rt.get_method(o, b"len").unwrap();
    assert_eq!(rt.borrow_userdata(u), Ok(&Host::Buffer(vec![1])));
    scope.close(&mut rt);
    assert!(matches!(rt.invoke(f, None), Err(Error::CallbackDestructed)));
    assert!(matches!(rt.invoke(len, this(o)), Err(Error::CallbackDestructed)));
    assert_eq!(rt.start_async(a, Ok(Host::Computation(0))), Err(Error::CallbackDestructed));
    assert!(matches!(rt.begin_poll(a), Err(Error::CallbackDestructed)));
    assert_eq!(rt.borrow_userdata(u), Err(Error::UserDataDestructed));
    assert_eq!(rt.borrow_userdata(o), Err(Error::UserDataTypeMismatch));
}

#[test]
fn nonstatic_object_cannot_be_read_back() {
    let mut rt: Runtime<Host> = Runtime::new();
    let mut scope = Scope::new(&mut rt);
    let o = scope
        .create_nonstatic_userdata(&mut rt, Host::Buffer(vec![3]), buffer_methods(), NonStaticUserDataFields::default())
        .unwrap();
    assert_eq!(rt.borrow_userdata(o), Err(Error::UserDataTypeMismatch));
    let u = scope.create_ser_userdata(&mut rt, Host::Buffer(vec![4])).unwrap();
    assert_eq!(rt.shell(u.id).kind, ShellKind::UserData { serializable: true });
    assert_eq!(rt.borrow_userdata(u), Ok(&Host::Buffer(vec![4])));
}

#[test]
fn sequential_scopes_register_and_drop_their_descriptors() {
    let mut rt: Runtime<Host> = Runtime::new();
    let mut first = Scope::new(&mut rt);
    let o1 = first
        .create_nonstatic_userdata(&mut rt, Host::Buffer(vec![1]), buffer_methods(), NonStaticUserDataFields::default())
        .unwrap();
    let d1 = rt.descriptor_of(o1).unwrap();
    assert!(rt.is_registered(d1));
    first.close(&mut rt);
    assert!(!rt.is_registered(d1));

    let mut second = Scope::new(&mut rt);
    let o2 = second
        .create_nonstatic_userdata(&mut rt, Host::Buffer(vec![2]), buffer_methods(), NonStaticUserDataFields::default())
        .unwrap();
    let d2 = rt.descriptor_of(o2).unwrap();
    assert_ne!(d1, d2);
    assert!(!rt.is_registered(d1));
    assert!(rt.is_registered(d2));
    second.close(&mut rt);
    assert!(!rt.is_registered(d2));
}

#[test]
fn closing_one_scope_keeps_another_scopes_descriptor() {
    let mut rt: Runtime<Host> = Runtime::new();
    let mut outer = Scope::new(&mut rt);
    let mut inner = Scope::new(&mut rt);
    let o1 = inner
        .create_nonstatic_userdata(&mut rt, Host::Buffer(vec![1]), buffer_methods(), NonStaticUserDataFields::default())
        .unwrap();
    let o2 = outer
        .create_nonstatic_userdata(&mut rt, Host::Buffer(vec![2]), buffer_methods(), NonStaticUserDataFields::default())
        .unwrap();
    let d1 = rt.descriptor_of(o1).unwrap();
    let d2 = rt.descriptor_of(o2).unwrap();
    inner.close(&mut rt);
    assert!(!rt.is_registered(d1));
    assert!(rt.is_registered(d2));
    let len2 = rt.get_method(o2, b"len").unwrap();
    assert!(matches!(rt.invoke(len2, this(o2)), Ok(Invocation::Shared)));
    rt.finish(len2, Invocation::Shared);
    outer.close(&mut rt);
    assert!(!rt.is_registered(d2));
}

#[test]
fn meta_field_under_index_must_be_table_function_or_nil() {
    let mut rt: Runtime<Host> = Runtime::new();
    let mut scope = Scope::new(&mut rt);
    let mut fields = NonStaticUserDataFields::default();
    fields.add_meta_field_with(MetaMethod::ToString, Value::Integer(1));
    fields.add_meta_field_with(MetaMethod::Index, Value::Integer(5));
    let r = scope.create_nonstatic_userdata(&mut rt, Host::Buffer(vec![]), buffer_methods(), fields);
    assert_eq!(
        r,
        Err(Error::MetaMethodTypeError { method: MetaMethod::Index, value: Value::Integer(5) })
    );

    let mut fields = NonStaticUserDataFields::default();
    fields.add_meta_field_with(MetaMethod::Index, Value::Table(9));
    fields.add_meta_field_with(MetaMethod::NewIndex, Value::Nil);
    let mut methods = NonStaticUserDataMethods::default();
    methods.add_meta_method(MetaMethod::Len, Host::Get);
    methods.add_meta_function(MetaMethod::Call, Host::Step(1));
    let o = scope.create_nonstatic_userdata(&mut rt, Host::Buffer(vec![]), methods, fields).unwrap();
    let d = rt.descriptor_of(o).unwrap();
    let meta = &rt.descriptor(d).meta;
    assert_eq!(meta.len(), 4);
    assert_eq!(meta[0].0, MetaMethod::Len);
    assert!(matches!(meta[0].1, Value::Function(_)));
    assert_eq!(meta[1].0, MetaMethod::Call);
    assert_eq!(meta[2], (MetaMethod::Index, Value::Table(9)));
    assert_eq!(meta[3], (MetaMethod::NewIndex, Value::Nil));
    assert!(rt.descriptor(d).getters.is_none());
    assert!(rt.descriptor(d).setters.is_none());
    let call = match meta[1].1 {
        Value::Function(f) => f,
        _ => panic!("a meta method is a function"),
    };
    assert!(matches!(rt.invoke(call, None), Ok(Invocation::Shared)));
    assert_eq!(rt.callback_state(call), Some(&Host::Step(1)));
}

#[test]
fn async_conversion_failure_comes_out_of_the_poll() {
    let mut rt: Runtime<Host> = Runtime::new();
    let mut scope = Scope::new(&mut rt);
    let a = scope.create_async_function(&mut rt, Host::Step(0)).unwrap();
    assert!(matches!(rt.begin_poll(a), Err(Error::CallbackDestructed)));
    assert_eq!(rt.start_async(a, Err(Error::ConversionError { code: 4 })), Ok(()));
    assert!(matches!(rt.begin_poll(a), Err(Error::ConversionError { code: 4 })));
    assert!(matches!(rt.begin_poll(a), Err(Error::CallbackDestructed)));
}

#[test]
fn async_computation_is_polled_and_torn_down() {
    let mut rt: Runtime<Host> = Runtime::new();
    let mut scope = Scope::new(&mut rt);
    let a: Function = scope.create_async_function(&mut rt, Host::Step(0)).unwrap();
    assert_eq!(rt.start_async(a, Ok(Host::Computation(1))), Ok(()));
    let c = rt.begin_poll(a).unwrap();
    assert_eq!(c, Host::Computation(1));
    assert!(matches!(rt.begin_poll(a), Err(Error::RecursiveMutCallback)));
    rt.end_poll(a, Some(Host::Computation(2)));
    let to_drop = scope.invalidate(&mut rt);
    assert_eq!(to_drop, vec![Host::Step(0), Host::Computation(2)]);
    assert!(rt.is_inert(a.id));
}

#[test]
fn finishing_after_teardown_keeps_the_shell_inert() {
    let mut rt: Runtime<Host> = Runtime::new();
    let mut scope = Scope::new(&mut rt);
    let f = scope.create_function_mut(&mut rt, Host::Step(1)).unwrap();
    let running = rt.invoke(f, None).unwrap();
    let to_drop = scope.invalidate(&mut rt);
    assert!(to_drop.is_empty());
    rt.finish(f, running);
    assert!(rt.is_inert(f.id));
    assert!(matches!(rt.invoke(f, None), Err(Error::CallbackDestructed)));
}

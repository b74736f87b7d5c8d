//! Properties that relate several operations of the bridge.
use vstd::prelude::*;

use crate::error::Error;
use crate::runtime::{Invocation, RuntimeModel, Slot};
use crate::scope::{detached_all, teardown_fits, ScopeModel, Teardown};
use crate::value::{AnyUserData, Function, Value};

verus! {

/// Whether some entry of `entries` names shell `j`.
pub open spec fn names(entries: Seq<(usize, Teardown)>, j: int) -> bool {
    exists|k: int| 0 <= k < entries.len() && (#[trigger] entries[k]).0 == j
}

/// What detaching the shells of `entries` does: each of them becomes inert, its
/// descriptor leaves the table, and nothing else changes.
pub proof fn lemma_detached_all<T>(rt: RuntimeModel<T>, entries: Seq<(usize, Teardown)>)
    requires
        rt.wf(),
        forall|k: int| 0 <= k < entries.len() ==> (#[trigger] entries[k]).0 < rt.shells.len(),
    ensures
        ({
            let fin = detached_all(rt, entries);
            &&& fin.shells.len() == rt.shells.len()
            &&& fin.payloads.len() == rt.payloads.len()
            &&& fin.pending.len() == rt.pending.len()
            &&& fin.registered.len() == rt.registered.len()
            &&& fin.metatables == rt.metatables
            &&& fin.next_scope == rt.next_scope
            &&& forall|k: int| 0 <= k < entries.len() ==> fin.inert(#[trigger] entries[k].0 as int)
            &&& forall|j: int|
                0 <= j < rt.shells.len() ==> (#[trigger] fin.shells[j]).kind == rt.shells[j].kind
                    && fin.shells[j].owner == rt.shells[j].owner
            &&& forall|j: int|
                0 <= j < rt.shells.len() && !names(entries, j) ==> {
                    &&& #[trigger] fin.shells[j] == rt.shells[j]
                    &&& fin.payloads[j] == rt.payloads[j]
                    &&& fin.pending[j] == rt.pending[j]
                }
            &&& forall|k: int|
                0 <= k < entries.len() && (#[trigger] rt.shells[entries[k].0 as int]).kind is NonStaticUserData
                    ==> !fin.registered[rt.shells[entries[k].0 as int].kind->descriptor as int]
            &&& forall|j: int|
                0 <= j < rt.shells.len() && !names(entries, j) && (
                #[trigger] rt.shells[j]).kind is NonStaticUserData ==> fin.registered[rt.shells[j].kind->descriptor as int]
                    == rt.registered[rt.shells[j].kind->descriptor as int]
        }),
    decreases entries.len(),
{
    if entries.len() > 0 {
        let prefix = entries.drop_last();
        lemma_detached_all(rt, prefix);
        let mid = detached_all(rt, prefix);
        let fin = detached_all(rt, entries);
        let i = entries.last().0 as int;
        assert(fin == mid.detached(i));
        assert(rt.shell_wf(i));
        assert(mid.shells[i].kind == rt.shells[i].kind);
        assert forall|k: int| 0 <= k < entries.len() implies fin.inert(#[trigger] entries[k].0 as int) by {
            if k < prefix.len() {
                assert(prefix[k] == entries[k]);
                assert(mid.inert(prefix[k].0 as int));
            }
        }
        assert forall|j: int| 0 <= j < rt.shells.len() && !names(entries, j) implies {
            &&& #[trigger] fin.shells[j] == rt.shells[j]
            &&& fin.payloads[j] == rt.payloads[j]
            &&& fin.pending[j] == rt.pending[j]
        } by {
            if names(prefix, j) {
                let k = choose|k: int| 0 <= k < prefix.len() && (#[trigger] prefix[k]).0 == j;
                assert(entries[k] == prefix[k]);
            }
            assert(j != i) by {
                assert(entries[entries.len() - 1].0 == i);
            }
        }
        assert forall|k: int|
            0 <= k < entries.len() && (#[trigger] rt.shells[entries[k].0 as int]).kind is NonStaticUserData
            implies !fin.registered[rt.shells[entries[k].0 as int].kind->descriptor as int] by {
            assert(rt.shell_wf(entries[k].0 as int));
            if k < prefix.len() {
                assert(prefix[k] == entries[k]);
                assert(rt.shells[prefix[k].0 as int].kind is NonStaticUserData);
                assert(!mid.registered[rt.shells[prefix[k].0 as int].kind->descriptor as int]);
            } else {
                assert(entries[k].0 == i);
            }
        }
        assert forall|j: int|
            0 <= j < rt.shells.len() && !names(entries, j) && (
            #[trigger] rt.shells[j]).kind is NonStaticUserData implies fin.registered[rt.shells[j].kind->descriptor as int]
                == rt.registered[rt.shells[j].kind->descriptor as int] by {
            if names(prefix, j) {
                let k = choose|k: int| 0 <= k < prefix.len() && (#[trigger] prefix[k]).0 == j;
                assert(entries[k] == prefix[k]);
            }
            assert(entries[entries.len() - 1].0 == i);
            assert(j != i);
            assert(rt.shell_wf(j));
            assert(mid.registered[rt.shells[j].kind->descriptor as int] == rt.registered[rt.shells[j].kind->descriptor as int]);
            if rt.shells[i].kind is NonStaticUserData {
                assert(rt.shells[i].kind != rt.shells[j].kind);
            }
        }
    }
}

/// Once a scope's first teardown pass has run, every callback it created fails
/// with `CallbackDestructed` whatever it is given, every asynchronous callback
/// can neither start nor poll, and none of its objects can be read back.
pub proof fn law_expired_resources_fail<T>(s: ScopeModel, rt: RuntimeModel<T>, k: int, receiver: Option<Value>)
    requires
        rt.wf(),
        s.wf_in(rt),
        0 <= k < s.entries.len(),
    ensures
        ({
            let fin = detached_all(rt, s.entries);
            let id = s.entries[k].0;
            &&& fin.shells[id as int].kind is Function ==> fin.call_error(Function { id }, receiver)
                == Some(Error::CallbackDestructed)
            &&& fin.shells[id as int].kind is AsyncFunction ==> fin.payloads[id as int] !is Held
                && fin.pending[id as int] is Empty
            &&& fin.shells[id as int].kind is UserData ==> fin.borrow_error(AnyUserData { id })
                == Some(Error::UserDataDestructed)
            &&& fin.shells[id as int].kind is NonStaticUserData ==> fin.borrow_error(AnyUserData { id }) is Some
        }),
{
    lemma_detached_all(rt, s.entries);
}

/// The first teardown pass leaves every shell the scope registered inert, with
/// its descriptor out of the table, before the second pass drops any host value.
pub proof fn law_teardown_strips_every_shell<T>(s: ScopeModel, rt: RuntimeModel<T>)
    requires
        rt.wf(),
        s.wf_in(rt),
    ensures
        forall|k: int|
            0 <= k < s.entries.len() ==> detached_all(rt, s.entries).inert(
                #[trigger] s.entries[k].0 as int,
            ),
        forall|k: int|
            0 <= k < s.entries.len() && (#[trigger] rt.shells[s.entries[k].0 as int]).kind is NonStaticUserData
                ==> !detached_all(rt, s.entries).registered[rt.shells[s.entries[k].0 as int].kind->descriptor as int],
{
    lemma_detached_all(rt, s.entries);
}

/// Closing one scope deregisters none of the descriptors of another scope's
/// objects, and leaves that scope able to close in turn.
pub proof fn law_other_scope_descriptors_stay<T>(s1: ScopeModel, s2: ScopeModel, rt: RuntimeModel<T>, k: int)
    requires
        rt.wf(),
        s1.wf_in(rt),
        s1.owns(rt),
        s2.wf_in(rt),
        s2.owns(rt),
        s1.id != s2.id,
        0 <= k < s2.entries.len(),
        rt.shells[s2.entries[k].0 as int].kind is NonStaticUserData,
    ensures
        ({
            let d = rt.shells[s2.entries[k].0 as int].kind->descriptor as int;
            detached_all(rt, s1.entries).registered[d] == rt.registered[d]
        }),
        s2.wf_in(detached_all(rt, s1.entries)),
        s2.owns(detached_all(rt, s1.entries)),
{
    lemma_detached_all(rt, s1.entries);
    let fin = detached_all(rt, s1.entries);
    let o = s2.entries[k].0 as int;
    assert(rt.shells[o].owner == s2.id);
    if names(s1.entries, o) {
        let j = choose|j: int| 0 <= j < s1.entries.len() && (#[trigger] s1.entries[j]).0 == o;
        assert(rt.shells[o].owner == s1.id);
    }
    assert(rt.shells[o].kind is NonStaticUserData);
    assert forall|m: int| 0 <= m < s2.entries.len() implies {
        let (id, t) = #[trigger] s2.entries[m];
        &&& fin.shells[id as int].owner == s2.id
        &&& teardown_fits(t, fin.shells[id as int].kind)
    } by {
        let id = s2.entries[m].0 as int;
        assert(fin.shells[id].kind == rt.shells[id].kind);
    }
}

/// A mutable callback or method that is running turns away a second call of
/// itself with the same arguments: the call fails with `RecursiveMutCallback`
/// instead of running twice at once.
pub proof fn law_reentrant_mutable_call_fails<T>(rt: RuntimeModel<T>, f: Function, receiver: Option<Value>)
    requires
        rt.wf(),
        rt.is_function(f),
        rt.is_mutable(f),
        rt.call_error(f, receiver) is None,
    ensures
        rt.entered(f).call_error(f, receiver) == Some(Error::RecursiveMutCallback),
{
    assert(rt.shell_wf(f.id as int));
}

/// While a mutable method runs, no other method of the same object can borrow
/// it: a mutable one fails with `UserDataBorrowMutError`, a shared one with
/// `UserDataBorrowError`.
pub proof fn law_running_mutable_method_excludes_others<T>(rt: RuntimeModel<T>, f: Function, g: Function, o: usize)
    requires
        rt.wf(),
        rt.is_function(f),
        rt.is_function(g),
        f != g,
        rt.is_mutable(f),
        rt.receiver(f) == Some(o),
        rt.receiver(g) == Some(o),
        rt.payloads[g.id as int] is Held,
        rt.call_error(f, Some(Value::UserData(AnyUserData { id: o }))) is None,
    ensures
        rt.entered(f).call_error(g, Some(Value::UserData(AnyUserData { id: o }))) == Some(
            if rt.is_mutable(g) {
                Error::UserDataBorrowMutError
            } else {
                Error::UserDataBorrowError
            },
        ),
{
    assert(rt.shell_wf(f.id as int));
    assert(rt.shell_wf(g.id as int));
}

/// A method bound to one object, called with any other `self`, fails with
/// `UserDataTypeMismatch`; called with its own object, while neither the method
/// nor the object is in use, it is let in.
pub proof fn law_method_checks_self<T>(rt: RuntimeModel<T>, f: Function, o1: usize, other: Option<Value>)
    requires
        rt.wf(),
        rt.is_function(f),
        rt.receiver(f) == Some(o1),
        other != Some(Value::UserData(AnyUserData { id: o1 })),
    ensures
        (rt.payloads[f.id as int] is Held) ==> rt.call_error(f, other) == Some(
            Error::UserDataTypeMismatch,
        ),
        (rt.payloads[f.id as int] is Held) && (rt.payloads[o1 as int] is Held)
            && rt.shells[o1 as int].readers == 0 ==> rt.call_error(
            f,
            Some(Value::UserData(AnyUserData { id: o1 })),
        ) is None,
{
}

/// A setter that returns a new value for the object, followed by a getter of
/// the same object: the getter is let in and reads the value the setter left.
pub proof fn law_setter_then_getter<T>(rt: RuntimeModel<T>, set: Function, get: Function, o: usize, state: T, value: T)
    requires
        rt.wf(),
        rt.is_function(set),
        rt.is_function(get),
        set != get,
        rt.is_mutable(set),
        !rt.is_mutable(get),
        rt.receiver(set) == Some(o),
        rt.receiver(get) == Some(o),
        rt.payloads[get.id as int] is Held,
        rt.call_error(set, Some(Value::UserData(AnyUserData { id: o }))) is None,
    ensures
        ({
            let after = rt.entered(set).finished(set, Invocation::ExclusiveMethod(state, value));
            &&& after.payloads[o as int] == Slot::Held(value)
            &&& after.call_error(get, Some(Value::UserData(AnyUserData { id: o }))) is None
            &&& after.entered(get).payloads[o as int] == Slot::Held(value)
        }),
{
    assert(rt.shell_wf(set.id as int));
    assert(rt.shell_wf(get.id as int));
}

} // verus!

//! A scope-lifetime bridge between host data and an embedded, garbage-collected
//! script runtime.
//!
//! A [`Scope`] registers every callback and object it creates in a runtime and,
//! when it closes, severs the runtime's access to the host data they captured:
//! each runtime-side shell keeps existing, but its hidden payload becomes inert,
//! so later script-side calls fail with an error instead of reaching freed data.
pub mod error;
pub mod value;
pub mod runtime;
pub mod scope;
pub mod userdata;
pub mod laws;

pub use error::Error;
pub use value::{AnyUserData, Function, MetaMethod, Value};
pub use scope::{Scope, ScopeModel, Teardown};
pub use userdata::{NonStaticMethod, NonStaticUserDataFields, NonStaticUserDataMethods};
pub use runtime::{Descriptor, Invocation, Runtime, RuntimeModel, Shell, ShellKind, Slot};

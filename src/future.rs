//! Instrumenting asynchronous work: a future paired with the scope it runs
//! in, or with the name of the span each of its resumptions opens.
use vstd::prelude::*;

use crate::scope::Scope;

verus! {

/// A future that runs attached to `scope`, which ends when it completes.
#[derive(Debug)]
pub struct WithScope<T> {
    pub inner: T,
    pub scope: Scope,
}

/// A future each of whose resumptions opens a span named `event`.
#[derive(Debug)]
pub struct WithSpan<T> {
    pub inner: T,
    pub event: u32,
}

/// Pairs any value, typically a future, with tracing.
pub trait FutureExt: Sized {
    fn with_scope(self, scope: Scope) -> (w: WithScope<Self>)
        ensures
            w.inner == self,
            w.scope == scope,
    ;

    fn in_new_span(self, event: u32) -> (w: WithSpan<Self>)
        ensures
            w.inner == self,
            w.event == event,
    ;
}

impl<T: Sized> FutureExt for T {
    fn with_scope(self, scope: Scope) -> (w: WithScope<T>) {
        WithScope { inner: self, scope }
    }

    fn in_new_span(self, event: u32) -> (w: WithSpan<T>) {
        WithSpan { inner: self, event }
    }
}

} // verus!

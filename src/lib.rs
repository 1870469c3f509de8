//! A low-overhead tracing core: nested timing spans recorded per thread,
//! carried across threads by trace handles, and assembled by a collector.
//!
//! Each thread records into its own [`SpanLine`], which the caller owns and
//! passes to every operation on that thread.
mod clock;
mod collection;
mod collector;
mod future;
mod handle;
mod local;
mod properties;
mod reconcile;
mod scope;
mod span;
mod span_id;
mod trace;

pub use crate::clock::{anchor, cycle_to_unix_time_ns, cycles_to_ns, real_time_ns, Anchor, Cycle};
pub use crate::collection::{Acquirer, LocalSpans, SpanCollection};
pub use crate::collector::{finish_spans, Collector};
pub use crate::future::{FutureExt, WithScope, WithSpan};
pub use crate::handle::{new_span, trace_binder, trace_binder_fine, LocalTraceGuard, SettleGuard, SpanGuard, TraceHandle};
pub use crate::local::{Registration, SpanLine};
pub use crate::properties::Properties;
pub use crate::reconcile::reconcile;
pub use crate::scope::{LocalScopeGuard, Scope};
pub use crate::span::{RawSpan, Span, State};
pub use crate::span_id::{IdEpochs, IdGenerator};
pub use crate::trace::{
    property, property_closure, trace_enable, trace_enable_fine, trace_may_enable, trace_may_enable_fine, LocalCollector,
    LocalGuard,
};

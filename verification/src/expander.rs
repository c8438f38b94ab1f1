//! Values that register their parts.

use crate::injection_binder::{BinderView, InjectionBinder};
use crate::named::Named;
use std::sync::Arc;
use vstd::prelude::*;

verus! {

/// A value that can be taken apart into components.
pub trait ComponentExpander {
    /// Whether the value, expanded on a binder that holds `before`, may
    /// hand back a binder that holds `after`. An expander that promises
    /// nothing of the binder it hands back keeps this answer.
    open spec fn expansion(&self, before: BinderView, after: BinderView) -> bool {
        true
    }

    /// Registers the parts of the value on `injector` and hands the
    /// binder back.
    fn expand<T: Clone + Named + 'static>(self, injector: InjectionBinder<T>) -> (binder:
        InjectionBinder<T>)
        ensures
            self.expansion(injector@, binder@),
    ;
}

impl<INNER: ComponentExpander> ComponentExpander for Box<INNER> {
    /// A boxed value expands as the value in the box.
    open spec fn expansion(&self, before: BinderView, after: BinderView) -> bool {
        (**self).expansion(before, after)
    }

    fn expand<T: Clone + Named + 'static>(self, injector: InjectionBinder<T>) -> (binder:
        InjectionBinder<T>) {
        let unboxed = *self;
        unboxed.expand(injector)
    }
}

impl<INNER: ComponentExpander + Clone> ComponentExpander for Arc<INNER> {
    /// A shared value expands as a clone of it.
    open spec fn expansion(&self, before: BinderView, after: BinderView) -> bool {
        exists|copy: INNER|
            call_ensures(INNER::clone, (&**self,), copy) && #[trigger] copy.expansion(
                before,
                after,
            )
    }

    fn expand<T: Clone + Named + 'static>(self, injector: InjectionBinder<T>) -> (binder:
        InjectionBinder<T>) {
        let unboxed = (*self).clone();
        unboxed.expand(injector)
    }
}

} // verus!

use vstd::prelude::*;

use crate::http::{Request, Response};

verus! {

/// A handler that needs no shared state.
pub trait StatelessHandler {
    /// Whether `response` is an answer this handler gives to `request`. A
    /// handler that states nothing of its answers keeps the default, which
    /// admits any response.
    open spec fn answers(&self, request: Request, response: Response) -> bool {
        true
    }

    fn call(&self, request: Request) -> (r: Response)
        ensures
            self.answers(request, r),
    ;
}

/// A handler that is handed its own copy of the shared state on every call.
pub trait StatefulHandler<S> {
    /// Whether `response` is an answer this handler gives to `request` with
    /// `state`. A handler that states nothing of its answers keeps the
    /// default, which admits any response.
    open spec fn answers(&self, request: Request, state: S, response: Response) -> bool {
        true
    }

    fn call(&self, request: Request, state: S) -> (r: Response)
        ensures
            self.answers(request, state, r),
    ;
}

/// A handler as it is registered: one that needs no state, or one that waits
/// for the state to be bound.
#[derive(Clone)]
pub enum BoxedHandler<H, G> {
    Stateless(H),
    Stateful(G),
}

/// A handler that can run: one that needs no state, or a stateful one
/// together with the state it was bound to.
#[derive(Clone)]
pub enum StatelessHandlerImpl<H, G, S> {
    Plain(H),
    Bound(G, S),
}

/// What binding `state` makes of a registered handler.
pub open spec fn bind_spec<H, G, S>(h: BoxedHandler<H, G>, state: S) -> StatelessHandlerImpl<H, G, S> {
    match h {
        BoxedHandler::Stateless(x) => StatelessHandlerImpl::Plain(x),
        BoxedHandler::Stateful(g) => StatelessHandlerImpl::Bound(g, state),
    }
}

impl<H, G> BoxedHandler<H, G> {
    /// Registers a handler that needs the shared state.
    pub fn from_handler(handler: G) -> (r: Self)
        ensures
            r == BoxedHandler::<H, G>::Stateful(handler),
    {
        BoxedHandler::Stateful(handler)
    }

    /// Registers a handler that needs no state.
    pub fn stateless(handler: H) -> (r: Self)
        ensures
            r == BoxedHandler::<H, G>::Stateless(handler),
    {
        BoxedHandler::Stateless(handler)
    }

    /// Binds the state; a handler that needs none passes through as it is.
    pub fn into_stateless_handler<S>(self, state: S) -> (r: StatelessHandlerImpl<H, G, S>)
        ensures
            r == bind_spec(self, state),
    {
        match self {
            BoxedHandler::Stateless(x) => StatelessHandlerImpl::Plain(x),
            BoxedHandler::Stateful(g) => StatelessHandlerImpl::Bound(g, state),
        }
    }
}

impl<H: StatelessHandler, G: StatefulHandler<S>, S: Clone> StatelessHandlerImpl<H, G, S> {
    /// Whether `response` is what running this handler on `request` may
    /// give: the stateless handler's answer, or the stateful handler's answer
    /// with a copy of the bound state.
    pub open spec fn answers(&self, request: Request, response: Response) -> bool {
        match self {
            StatelessHandlerImpl::Plain(h) => h.answers(request, response),
            StatelessHandlerImpl::Bound(g, s) => exists|c: S|
                cloned(*s, c) && #[trigger] g.answers(request, c, response),
        }
    }

    /// Runs the handler; a bound one gets a copy of its state.
    pub fn call(&self, request: Request) -> (r: Response)
        ensures
            self.answers(request, r),
    {
        match self {
            StatelessHandlerImpl::Plain(h) => h.call(request),
            StatelessHandlerImpl::Bound(g, s) => {
                let c = s.clone();
                assert(cloned(*s, c));
                g.call(request, c)
            },
        }
    }
}

} // verus!

//! Decisions a rendering task settles before driving the backend: which
//! content source the payload names, and which wait policy to apply between
//! loading the content and printing it. The backend calls themselves —
//! setting content, navigating, registering listeners — belong to the driver;
//! what to do is decided here.

use vstd::prelude::*;
use crate::idle::NetworkIdleKind;

verus! {

/// How long to wait after navigation before the page counts as ready.
#[derive(Debug, Clone, Copy, PartialEq, Eq, Structural)]
pub enum WaitStrategy {
    /// Proceed as soon as navigation completes.
    Immediate,
    /// Wait until the page signals readiness through the exposed custom
    /// event; the listener must be registered before navigation starts.
    CustomEvent,
    /// Wait until the network is idle under the given policy.
    NetworkIdle(NetworkIdleKind),
}

/// Where the document's content comes from.
#[derive(Debug, Clone, Copy, PartialEq, Eq, Structural)]
pub enum ContentSource {
    /// The payload carries inline markup: set it as the page content
    /// directly, with nothing to wait for.
    InlineHtml,
    /// The payload names a location to navigate to, then the given wait
    /// strategy applies.
    Navigate(WaitStrategy),
}

/// Why no plan could be made from a payload.
#[derive(Debug, Clone, Copy, PartialEq, Eq, Structural)]
pub enum PlanError {
    /// The payload named neither inline markup nor a location.
    MissingSource,
}

/// The plan for a payload: inline markup wins over a location; a location is
/// waited on for the custom readiness event if the payload asks for it, else
/// for network idle under the strict policy when the payload asks to wait for
/// resources, under the tolerant policy when it asks not to, and not at all
/// when it leaves the choice open; a payload naming neither source is
/// rejected.
pub open spec fn spec_render_plan(
    has_html: bool,
    has_url: bool,
    wait_for_event: bool,
    wait_for_resources: Option<bool>,
) -> Result<ContentSource, PlanError> {
    if has_html {
        Ok(ContentSource::InlineHtml)
    } else if has_url {
        Ok(
            ContentSource::Navigate(
                if wait_for_event {
                    WaitStrategy::CustomEvent
                } else {
                    match wait_for_resources {
                        Some(true) => WaitStrategy::NetworkIdle(NetworkIdleKind::Idle0),
                        Some(false) => WaitStrategy::NetworkIdle(NetworkIdleKind::Idle2),
                        None => WaitStrategy::Immediate,
                    }
                },
            ),
        )
    } else {
        Err(PlanError::MissingSource)
    }
}

/// Decide the plan from what the payload provides: whether it carries inline
/// markup, whether it names a location, whether it asks to wait for the
/// custom readiness event, and whether it asks to wait for resources. Fails
/// exactly when the payload names neither markup nor a location.
pub fn render_plan(
    has_html: bool,
    has_url: bool,
    wait_for_event: bool,
    wait_for_resources: Option<bool>,
) -> (r: Result<ContentSource, PlanError>)
    ensures
        r == spec_render_plan(has_html, has_url, wait_for_event, wait_for_resources),
        r is Err <==> (!has_html && !has_url),
{
    if has_html {
        Ok(ContentSource::InlineHtml)
    } else if has_url {
        if wait_for_event {
            Ok(ContentSource::Navigate(WaitStrategy::CustomEvent))
        } else {
            match wait_for_resources {
                Some(true) => Ok(
                    ContentSource::Navigate(WaitStrategy::NetworkIdle(NetworkIdleKind::Idle0)),
                ),
                Some(false) => Ok(
                    ContentSource::Navigate(WaitStrategy::NetworkIdle(NetworkIdleKind::Idle2)),
                ),
                None => Ok(ContentSource::Navigate(WaitStrategy::Immediate)),
            }
        }
    } else {
        Err(PlanError::MissingSource)
    }
}

} // verus!

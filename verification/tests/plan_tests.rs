use renderpool::idle::NetworkIdleKind;
use renderpool::plan::{render_plan, ContentSource, PlanError, WaitStrategy};

#[test]
fn inline_html_wins_over_url() {
    assert_eq!(render_plan(true, true, true, Some(true)), Ok(ContentSource::InlineHtml));
    assert_eq!(render_plan(true, false, false, None), Ok(ContentSource::InlineHtml));
}

#[test]
fn url_with_custom_event_wait() {
    assert_eq!(
        render_plan(false, true, true, Some(true)),
        Ok(ContentSource::Navigate(WaitStrategy::CustomEvent))
    );
}

#[test]
fn url_wait_for_resources_selects_idle_policy() {
    assert_eq!(
        render_plan(false, true, false, Some(true)),
        Ok(ContentSource::Navigate(WaitStrategy::NetworkIdle(NetworkIdleKind::Idle0)))
    );
    assert_eq!(
        render_plan(false, true, false, Some(false)),
        Ok(ContentSource::Navigate(WaitStrategy::NetworkIdle(NetworkIdleKind::Idle2)))
    );
    assert_eq!(
        render_plan(false, true, false, None),
        Ok(ContentSource::Navigate(WaitStrategy::Immediate))
    );
}

#[test]
fn missing_source_is_rejected() {
    assert_eq!(render_plan(false, false, true, Some(true)), Err(PlanError::MissingSource));
    assert_eq!(render_plan(false, false, false, None), Err(PlanError::MissingSource));
}

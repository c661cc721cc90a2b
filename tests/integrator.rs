use raytrace::integrator::{radiance_step, PathEvent, PathStep};

#[test]
fn spent_budget_is_black_whatever_the_scene() {
    for event in [None, Some(PathEvent::Missed), Some(PathEvent::Absorbed), Some(PathEvent::Scattered)] {
        assert_eq!(radiance_step(0, event), PathStep::Black);
    }
}

#[test]
fn a_path_with_budget_is_traced_first() {
    assert_eq!(radiance_step(1, None), PathStep::Trace);
    assert_eq!(radiance_step(50, None), PathStep::Trace);
}

#[test]
fn miss_gives_background_and_absorption_black() {
    assert_eq!(radiance_step(3, Some(PathEvent::Missed)), PathStep::Background);
    assert_eq!(radiance_step(3, Some(PathEvent::Absorbed)), PathStep::Black);
}

#[test]
fn scatter_bounces_with_one_less() {
    assert_eq!(radiance_step(50, Some(PathEvent::Scattered)), PathStep::Bounce(49));
    assert_eq!(radiance_step(1, Some(PathEvent::Scattered)), PathStep::Bounce(0));
    assert_eq!(radiance_step(u32::MAX, Some(PathEvent::Scattered)), PathStep::Bounce(u32::MAX - 1));
}

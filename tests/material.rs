use ray_tracer::material::dielectric_bounce;
use ray_tracer::material::metal_interaction;
use ray_tracer::material::Bounce;
use ray_tracer::shading::Action;
use ray_tracer::shading::Interaction;
use ray_tracer::shading::Terminal;
use ray_tracer::shading::Tracer;

#[test]
fn total_internal_reflection_always_reflects() {
    assert_eq!(dielectric_bounce(true, false), Bounce::Reflect);
    assert_eq!(dielectric_bounce(true, true), Bounce::Reflect);
}

#[test]
fn dielectric_follows_the_draw_otherwise() {
    assert_eq!(dielectric_bounce(false, true), Bounce::Reflect);
    assert_eq!(dielectric_bounce(false, false), Bounce::Refract);
}

#[test]
fn glass_beyond_critical_angle_reflects() {
    // leaving glass (index 1.5) at 60 degrees from the normal
    let ratio: f64 = 1.5;
    let cos_theta: f64 = 0.5;
    let sin_theta = (1.0 - cos_theta * cos_theta).sqrt();
    let discriminant = 1.0 - ratio * ratio * sin_theta * sin_theta;
    assert!(discriminant < 0.0);
    for draw in [0.0, 0.3, 0.99] {
        let r0 = ((1.0 - ratio) / (1.0 + ratio)).powi(2);
        let reflectance = r0 + (1.0 - r0) * (1.0 - cos_theta).powi(5);
        assert_eq!(dielectric_bounce(discriminant < 0.0, draw < reflectance), Bounce::Reflect);
    }
}

#[test]
fn metal_absorbs_reflection_into_surface() {
    let normal = [0.0, 1.0, 0.0];
    let perturbed = [0.3, -0.1, 0.0];
    let dot: f64 = (0..3).map(|k| normal[k] * perturbed[k]).sum();
    let ev = metal_interaction(dot <= 0.0, [1.0, 1.0, 1.0], perturbed);
    assert!(matches!(ev, Interaction::Absorbed));
    let (mut t, _) = Tracer::<[f64; 3]>::start(perturbed, 4);
    let a = t.step(ev);
    assert!(matches!(a, Action::Finish(Terminal::Black)));
    assert!(t.attenuations().is_empty());
}

#[test]
fn metal_scatters_reflection_out_of_surface() {
    let ev = metal_interaction(false, 5u8, 'r');
    assert!(matches!(ev, Interaction::Scattered(5, 'r')));
}

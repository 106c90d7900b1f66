use shad_env::{screenshot_request, warmup_updates};

fn args(v: &[&str]) -> Vec<String> {
    v.iter().map(|s| s.to_string()).collect()
}

#[test]
fn no_arguments_means_a_window() {
    assert_eq!(screenshot_request(&args(&["pong"]), "screenshot.png"), None);
    assert_eq!(screenshot_request(&args(&[]), "screenshot.png"), None);
}

#[test]
fn screenshot_flag_uses_the_default_path() {
    assert_eq!(
        screenshot_request(&args(&["pong", "--screenshot"]), "screenshot.png"),
        Some("screenshot.png".to_string())
    );
}

#[test]
fn screenshot_flag_takes_the_next_argument_as_path() {
    assert_eq!(
        screenshot_request(&args(&["pong", "--screenshot", "out.png", "extra"]), "screenshot.png"),
        Some("out.png".to_string())
    );
}

#[test]
fn the_flag_counts_only_as_first_argument() {
    assert_eq!(screenshot_request(&args(&["pong", "x", "--screenshot"]), "s.png"), None);
    assert_eq!(screenshot_request(&args(&["pong", "--Screenshot"]), "s.png"), None);
}

#[test]
fn no_warmup_means_one_update_at_zero_dt() {
    assert_eq!(warmup_updates(0, (1.0f32 / 60.0).to_bits()), (1, 0.0f32.to_bits()));
}

#[test]
fn warmup_runs_the_given_steps_at_fixed_dt() {
    let dt = (1.0f32 / 60.0).to_bits();
    assert_eq!(warmup_updates(120, dt), (120, dt));
    assert_eq!(warmup_updates(1, 0.5f32.to_bits()), (1, 0.5f32.to_bits()));
}

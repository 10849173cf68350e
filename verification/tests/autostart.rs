use fastpeq::autostart::{args_are_minimized, MINIMIZED_FLAG};

#[test]
fn detects_the_minimized_flag_among_other_args() {
    assert!(args_are_minimized(&["--minimized"]));
    assert!(args_are_minimized(&["--other", MINIMIZED_FLAG]));
}

#[test]
fn plain_launches_are_not_minimized() {
    assert!(!args_are_minimized(&Vec::<&str>::new()));
    assert!(!args_are_minimized(&["--minimize", "minimized"]));
}

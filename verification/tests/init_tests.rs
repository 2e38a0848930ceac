use script::perform_platform_specific_initialization;

#[test]
fn no_raise_when_the_soft_limit_already_suffices() {
    assert_eq!(perform_platform_specific_initialization(4096, Some(8192)), None);
    assert_eq!(perform_platform_specific_initialization(10000, None), None);
}

#[test]
fn raises_to_the_ceiling_under_an_ample_hard_limit() {
    assert_eq!(perform_platform_specific_initialization(1024, Some(8192)), Some(4096));
    assert_eq!(perform_platform_specific_initialization(0, None), Some(4096));
}

#[test]
fn a_low_hard_limit_caps_the_raise() {
    assert_eq!(perform_platform_specific_initialization(1024, Some(2048)), Some(2048));
}

use threers::layers::Layers;

#[test]
fn default_channel_zero_enabled() {
    let l = Layers::default();
    assert!(l.is_enabled(0));
    assert!(!l.is_enabled(1));
}

#[test]
fn enable_disable_toggle() {
    let mut l = Layers::default();
    l.enable(5);
    assert!(l.is_enabled(5));
    l.disable(5);
    assert!(!l.is_enabled(5));
    l.toggle(7);
    assert!(l.is_enabled(7));
    l.toggle(7);
    assert!(!l.is_enabled(7));
}

#[test]
fn test_intersection() {
    let mut a = Layers::default();
    let mut b = Layers::with_mask(0);
    b.enable(0);
    assert!(a.test(&b));
    a.set(2);
    assert!(!a.test(&b));
    b.enable(2);
    assert!(a.test(&b));
}

#[test]
fn channels_wrap_modulo_32() {
    let mut l = Layers::with_mask(0);
    l.enable(33);
    assert!(l.is_enabled(1));
    assert_eq!(l.mask, 2);
    l.enable_all();
    assert_eq!(l.mask, u32::MAX);
    l.disable_all();
    assert_eq!(l.mask, 0);
}

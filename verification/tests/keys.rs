use drend::keys::KeyState;

#[test]
fn set_names_one_key() {
    let mut k = KeyState::default();
    k.set("w", true);
    assert!(k.w && !k.s && !k.left);
    k.set("ArrowLeft", true);
    assert!(k.left);
    k.set("w", false);
    assert!(!k.w && k.left);
    let before = k;
    k.set("Space", true);
    assert_eq!(k, before);
    k.set("ArrowDown", true);
    k.set("ArrowUp", true);
    k.set("ArrowRight", true);
    k.set("a", true);
    k.set("d", true);
    k.set("s", true);
    assert!(k.down && k.up && k.right && k.a && k.d && k.s);
}

#[test]
fn last_event_wins_and_keys_commute() {
    let mut a = KeyState::default();
    a.set("d", true);
    a.set("d", false);
    assert_eq!(a, KeyState::default());
    let mut b = KeyState::default();
    b.set("a", true);
    b.set("ArrowUp", true);
    let mut c = KeyState::default();
    c.set("ArrowUp", true);
    c.set("a", true);
    assert_eq!(b, c);
}

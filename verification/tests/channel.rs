use guarded_automata::automata::channel::Channel;

#[test]
fn channel_equality() {
    let name = "name";
    let channel_a = Channel::new_input(name);
    let channel_b = Channel::new_output(name);
    assert_eq!(channel_a, channel_b);
    assert_eq!(channel_b, channel_a);
    assert_eq!(channel_a, channel_a);
    assert_eq!(channel_b, channel_b);
}

#[test]
fn channel_inequality_by_name() {
    let channel_a = Channel::new_input("one");
    let channel_b = Channel::new_input("other");
    assert_ne!(channel_a, channel_b);
}

#[test]
fn channel_new_picks_the_direction() {
    assert!(matches!(Channel::new("x", true), Channel::In(name) if name == "x"));
    assert!(matches!(Channel::new("x", false), Channel::Out(name) if name == "x"));
}

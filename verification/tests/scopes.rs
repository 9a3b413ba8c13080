use rune_compile::scopes::{Scopes, Var};

fn scopes() -> Scopes {
    let mut scopes = Scopes::new(Vec::new());
    scopes.enter_layer();
    scopes
}

fn name(text: &str) -> String {
    String::from(text)
}

#[test]
fn declare_binds_fresh_slots_in_order() {
    let mut s = scopes();
    assert_eq!(s.declare(name("a")), 0);
    assert_eq!(s.declare(name("b")), 1);
    assert_eq!(s.resolve(&name("a")), Some(Var::Local(0)));
    assert_eq!(s.resolve(&name("b")), Some(Var::Local(1)));
    assert_eq!(s.total(), 2);
    assert_eq!(s.local(), 2);
}

#[test]
fn a_name_that_no_layer_binds_is_not_resolved() {
    let mut s = scopes();
    s.declare(name("a"));
    assert_eq!(s.resolve(&name("y")), None);
}

#[test]
fn an_inner_declaration_hides_the_outer_one_and_keeps_its_slot() {
    let mut s = scopes();
    assert_eq!(s.declare(name("x")), 0);
    s.enter_layer();
    assert_eq!(s.declare(name("x")), 1);
    assert_eq!(s.resolve(&name("x")), Some(Var::Local(1)));
    assert_eq!(s.total(), 2);
    assert_eq!(s.exit_layer(), 1);
    assert_eq!(s.resolve(&name("x")), Some(Var::Local(0)));
    assert_eq!(s.total(), 1);
}

#[test]
fn a_later_declaration_in_the_same_layer_hides_the_earlier_one() {
    let mut s = scopes();
    s.declare(name("x"));
    s.declare(name("x"));
    assert_eq!(s.resolve(&name("x")), Some(Var::Local(1)));
}

#[test]
fn exit_layer_releases_every_slot_of_the_layer() {
    let mut s = scopes();
    s.declare(name("a"));
    s.enter_layer();
    s.declare(name("b"));
    s.reserve();
    s.declare(name("c"));
    assert_eq!(s.local(), 3);
    assert_eq!(s.exit_layer(), 3);
    assert_eq!(s.total(), 1);
    assert_eq!(s.resolve(&name("b")), None);
    assert_eq!(s.resolve(&name("c")), None);
    s.enter_layer();
    assert_eq!(s.declare(name("d")), 1);
}

#[test]
fn an_empty_layer_releases_nothing() {
    let mut s = scopes();
    s.declare(name("a"));
    s.enter_layer();
    assert_eq!(s.local(), 0);
    assert_eq!(s.exit_layer(), 0);
    assert_eq!(s.resolve(&name("a")), Some(Var::Local(0)));
    assert_eq!(s.depth(), 1);
}

#[test]
fn temporaries_take_and_give_back_the_top_slot() {
    let mut s = scopes();
    s.declare(name("a"));
    assert_eq!(s.reserve(), 1);
    assert_eq!(s.reserve(), 2);
    assert_eq!(s.free(), 2);
    assert_eq!(s.free(), 1);
    assert_eq!(s.total(), 1);
    assert_eq!(s.reserve(), 1);
}

#[test]
fn a_variable_of_the_environment_is_captured() {
    let mut s = Scopes::new(vec![name("outer"), name("other")]);
    s.enter_layer();
    s.declare(name("x"));
    assert_eq!(s.resolve(&name("outer")), Some(Var::Captured(0)));
    assert_eq!(s.resolve(&name("other")), Some(Var::Captured(1)));
    assert_eq!(s.resolve(&name("x")), Some(Var::Local(0)));
    assert_eq!(s.resolve(&name("nowhere")), None);
}

#[test]
fn a_local_variable_hides_a_captured_one() {
    let mut s = Scopes::new(vec![name("v")]);
    s.enter_layer();
    assert_eq!(s.resolve(&name("v")), Some(Var::Captured(0)));
    s.declare(name("v"));
    assert_eq!(s.resolve(&name("v")), Some(Var::Local(0)));
}

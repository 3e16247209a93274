use opgraph::function_graph::variable::{Variable, Variables};

#[test]
fn test_variable_read() {
    let variable = Variable::owned( 42 );
    let guard = variable.read();
    assert_eq!( *guard.downcast_ref::<i32>().expect( "Failed to downcast" ), 42 );
}

#[test]
fn test_variable_write() {
    let variable = Variable::owned( 42 );
    let mut guard = variable.write();
    *guard.downcast_mut::<i32>().expect( "Failed to downcast" ) = 43;
    assert_eq!( *guard.downcast_ref::<i32>().expect( "Failed to downcast" ), 43 );
}

#[test]
fn test_variable_read_as() {
    let variable = Variable::owned( 42 );
    let guard = variable.read_as::<i32>().expect( "Failed to downcast" );
    assert_eq!( *guard, 42 );
}

#[test]
fn test_variable_write_as() {
    let variable = Variable::owned( 42 );
    let mut guard = variable.write_as::<i32>().expect( "Failed to downcast" );
    *guard = 43;
    assert_eq!( *guard, 43 );
}

#[test]
fn shared_clones_are_one_cell() {
    let variable = Variable::shared(1);
    let other = variable.clone();
    *other.write().downcast_mut::<i32>().unwrap() = 7;
    assert_eq!(*variable.read().downcast_ref::<i32>().unwrap(), 7);
}

#[test]
fn owned_clones_are_cells_of_their_own() {
    let variable = Variable::owned(String::from("kept"));
    let other = variable.clone();
    assert_eq!(other.read().downcast_ref::<String>().unwrap(), "kept");
    *other.write().downcast_mut::<String>().unwrap() = String::from("changed");
    assert_eq!(variable.read().downcast_ref::<String>().unwrap(), "kept");
    assert_eq!(other.read().downcast_ref::<String>().unwrap(), "changed");
}

#[test]
fn a_value_of_another_type_is_not_handed_out() {
    let variable = Variable::owned(42);
    assert!(variable.read().downcast_ref::<String>().is_none());
    assert!(variable.write().downcast_mut::<u8>().is_none());
    assert!(variable.read_as::<String>().is_none());
    assert!(variable.write_as::<u64>().is_none());
    assert!(variable.read_as::<i32>().is_some());
}

#[test]
fn variables_are_the_same_type_by_what_they_hold() {
    let a = Variable::owned(1);
    let b = Variable::shared(2);
    let c = Variable::shared(String::from("three"));
    assert!(a.same_type(&b));
    assert!(!a.same_type(&c));
    assert!(a == b);
    assert!(a != c);
    assert_eq!(a.type_id(), std::any::TypeId::of::<i32>());
    *c.write().downcast_mut::<String>().unwrap() = String::from("still a string");
    assert!(c.same_type(&Variable::owned(String::new())));
}

#[test]
fn variables_are_found_by_name() {
    let variables = Variables::new([("x", Variable::owned(1)), ("y", Variable::owned(2u8))]);
    assert_eq!(variables.read(&"x").downcast_ref::<i32>(), Some(&1));
    assert_eq!(variables.read(&"y").downcast_ref::<u8>(), Some(&2));
    assert!(variables.get(&"x").is_some());
    assert!(variables.get(&"z").is_none());
    *variables.write(&"x").downcast_mut::<i32>().unwrap() = 10;
    assert_eq!(*variables.read_as::<i32>(&"x").unwrap(), 10);
    *variables.write_as::<u8>(&"y").unwrap() = 20;
    assert_eq!(*variables.read_as::<u8>(&"y").unwrap(), 20);
}

#[test]
fn a_name_without_a_variable_gives_nothing() {
    let variables = Variables::new([("x", Variable::owned(1))]);
    assert!(variables.get(&"z").is_none());
    assert!(variables.read_as::<i32>(&"z").is_none());
    assert!(variables.write_as::<i32>(&"z").is_none());
    assert!(variables.read_as::<u8>(&"x").is_none());
    assert!(variables.write_as::<i32>(&"x").is_some());
}

#[test]
fn the_type_of_a_variable_never_changes() {
    let variable = Variable::shared(1u8);
    let id = variable.type_id();
    assert_eq!(id, std::any::TypeId::of::<u8>());
    *variable.write().downcast_mut::<u8>().unwrap() = 200;
    *variable.write_as::<u8>().unwrap() = 201;
    assert_eq!(variable.type_id(), id);
    assert_eq!(variable.clone().type_id(), id);
    let owned = Variable::owned(String::from("text"));
    assert_eq!(owned.clone().type_id(), std::any::TypeId::of::<String>());
    assert!(owned.clone() == owned);
    assert!(owned != variable);
}

#[test]
fn the_type_is_told_while_the_variable_is_held() {
    let variable = Variable::owned(5i64);
    let mut guard = variable.write();
    assert_eq!(variable.type_id(), std::any::TypeId::of::<i64>());
    assert!(variable.same_type(&Variable::shared(0i64)));
    assert!(!variable.same_type(&Variable::shared(0u64)));
    *guard.downcast_mut::<i64>().unwrap() = 6;
    assert_eq!(guard.downcast_ref::<i64>(), Some(&6));
}

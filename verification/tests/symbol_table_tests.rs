use monkey::symbol_table::SymbolTable;

#[test]
fn define_assigns_sequential_slots() {
    let mut table = SymbolTable::new();
    assert_eq!(0, table.define(String::from("one")));
    assert_eq!(1, table.define(String::from("two")));
    assert_eq!(2, table.define(String::from("three")));
}

#[test]
fn resolve_finds_defined_names() {
    let mut table = SymbolTable::new();
    table.define(String::from("a"));
    table.define(String::from("b"));
    assert_eq!(Some(0), table.resolve("a"));
    assert_eq!(Some(1), table.resolve("b"));
    assert_eq!(None, table.resolve("c"));
}

#[test]
fn redefinition_allocates_a_fresh_slot() {
    let mut table = SymbolTable::new();
    assert_eq!(0, table.define(String::from("a")));
    assert_eq!(1, table.define(String::from("a")));
    // the name now reaches only the new slot; the old one stays allocated
    assert_eq!(Some(1), table.resolve("a"));
    assert_eq!(2, table.define(String::from("b")));
}

use await_tree::context::ContextId;
use await_tree::registry::{init_global_registry, AnyKey, Config, ConfigBuilder, Registry};
use await_tree::span::Span;

#[test]
fn test_registry() {
    let mut registry = Registry::new(Config::default());

    // equal keys are known under one number, unequal keys under different ones
    let _0_i32 = registry.register(AnyKey::new(&0_i32, 0), ContextId(0), Span::new("0"));
    let _1_i32 = registry.register(AnyKey::new(&1_i32, 1), ContextId(1), Span::new("1"));
    let _2_i32 = registry.register(AnyKey::new(&2_i32, 2), ContextId(2), Span::new("2"));

    let _0_str = registry.register(AnyKey::new(&"0", 3), ContextId(3), Span::new("0"));
    let _1_str = registry.register(AnyKey::new(&"1", 4), ContextId(4), Span::new("1"));

    let _unit = registry.register(AnyKey::new(&(), 5), ContextId(5), Span::new("()"));
    let _unit_replaced = registry.register(AnyKey::new(&(), 5), ContextId(6), Span::new("[]"));

    let _anon = registry.register_anonymous(ContextId(7), Span::new("anon"));
    let _anon = registry.register_anonymous(ContextId(8), Span::new("anon"));

    let i32s = registry.collect::<i32>();
    assert_eq!(i32s.len(), 3);

    let strs = registry.collect::<&'static str>();
    assert_eq!(strs.len(), 2);

    let units = registry.collect::<()>();
    assert_eq!(units.len(), 1);

    let anons = registry.collect_anonymous();
    assert_eq!(anons.len(), 2);

    let all = registry.collect_all();
    assert_eq!(all.len(), 8);
}

#[test]
fn register_takes_the_verbose_flag_of_the_config() {
    let mut builder = ConfigBuilder::default();
    builder.verbose(true);
    let config = builder.build().unwrap();
    assert!(config.verbose());
    let mut registry = Registry::new(config);
    let context = registry.register(AnyKey::new(&1_u8, 0), ContextId(1), Span::new("task"));
    assert!(context.verbose());
    assert!(context.id() == ContextId(1));
    assert_eq!(context.tree().active_node_count(), 1);
    assert!(context.tree().render().starts_with("task ["));
    assert!(!Config::default().verbose());
    assert!(!ConfigBuilder::default().build().unwrap().verbose());
}

#[test]
fn get_finds_the_last_registration_of_a_key() {
    let mut registry = Registry::new(Config::default());
    registry.register(AnyKey::new(&1_i32, 10), ContextId(1), Span::new("a"));
    registry.register(AnyKey::new(&"1", 11), ContextId(2), Span::new("b"));
    registry.register(AnyKey::new(&1_i32, 10), ContextId(3), Span::new("c"));
    assert_eq!(registry.len(), 2);
    assert!(registry.get(&AnyKey::new(&1_i32, 10)) == Some(ContextId(3)));
    assert!(registry.get(&AnyKey::new(&"1", 11)) == Some(ContextId(2)));
    assert!(registry.get(&AnyKey::new(&2_i32, 12)).is_none());
    assert!(registry.get(&AnyKey::new(&1_i64, 13)).is_none());
    assert!(registry.collect_all() == vec![ContextId(2), ContextId(3)]);
}

#[derive(Debug, PartialEq, Eq, Hash)]
struct Opaque(u8);

#[test]
fn keys_are_told_apart_by_number_and_not_by_their_text() {
    let mut registry = Registry::new(Config::default());
    // two keys with the same type and the same debug text, but not equal
    let first = AnyKey::from_parts(1, std::any::TypeId::of::<Opaque>(), "Opaque".to_string(), None, None);
    let second = AnyKey::from_parts(2, std::any::TypeId::of::<Opaque>(), "Opaque".to_string(), None, None);
    assert!(!first.same_key(&second));
    registry.register(first.clone(), ContextId(1), Span::new("a"));
    registry.register(second.clone(), ContextId(2), Span::new("b"));
    assert_eq!(registry.len(), 2);
    assert!(registry.get(&first) == Some(ContextId(1)));
    assert!(registry.get(&second) == Some(ContextId(2)));
    // one key under one number, whatever its text
    let again = AnyKey::new(&Opaque(7), 1);
    assert!(again.same_key(&first));
    assert!(registry.get(&again) == Some(ContextId(1)));
}

#[test]
fn anonymous_trees_are_not_found_by_key() {
    let mut registry = Registry::new(Config::default());
    registry.register_anonymous(ContextId(5), Span::new("anon"));
    assert!(registry.get(&AnyKey::anonymous(ContextId(5))) == Some(ContextId(5)));
    assert!(registry.get(&AnyKey::anonymous(ContextId(6))).is_none());
    assert!(registry.get(&AnyKey::new(&5_u64, 5)).is_none());
    assert!(registry.get(&AnyKey::new(&ContextId(5), 5)).is_none());
    assert!(registry.collect_anonymous() == vec![ContextId(5)]);
    assert!(registry.collect::<u64>().is_empty());
}

#[test]
fn forget_and_clear_remove_entries() {
    let mut registry = Registry::new(Config::default());
    registry.register(AnyKey::new(&1_i32, 1), ContextId(1), Span::new("a"));
    registry.register(AnyKey::new(&2_i32, 2), ContextId(2), Span::new("b"));
    registry.register(AnyKey::new(&3_i32, 3), ContextId(3), Span::new("c"));
    registry.forget(ContextId(2));
    assert!(registry.collect_all() == vec![ContextId(1), ContextId(3)]);
    registry.forget(ContextId(9));
    assert_eq!(registry.len(), 2);
    registry.clear();
    assert_eq!(registry.len(), 0);
    assert!(registry.get(&AnyKey::new(&1_i32, 1)).is_none());
}

#[test]
fn any_key_knows_its_type() {
    let key = AnyKey::new(&233_i32, 0);
    assert!(key.is::<i32>());
    assert!(!key.is::<u32>());
    assert!(!key.is_anonymous());
    assert_eq!(key.text(), "233");
    assert_eq!(AnyKey::new(&"actor", 1).text(), "actor");
    assert_eq!(AnyKey::new(&String::from("a \"b\""), 2).text(), "a \"b\"");
    assert_eq!(AnyKey::new(&(), 3).text(), "()");
    assert_eq!(AnyKey::new(&Some("x"), 4).text(), "Some(\"x\")");
    assert!(key.same_key(&AnyKey::new(&233_i32, 0)));
    assert!(!key.same_key(&AnyKey::new(&234_i32, 5)));
    assert!(key.clone().same_key(&key));
    let anonymous = AnyKey::anonymous(ContextId(42));
    assert!(anonymous.is_anonymous());
    assert_eq!(anonymous.text(), "Anonymous #42");
    assert!(!anonymous.same_key(&AnyKey::anonymous(ContextId(43))));
    assert!(!anonymous.same_key(&AnyKey::new(&42_u64, 42)));
}

#[test]
fn global_registry_is_set_once() {
    let mut slot = None;
    init_global_registry(&mut slot, Config::default());
    let registry = slot.unwrap();
    assert_eq!(registry.len(), 0);
    assert!(!registry.config().verbose());
}

#[test]
fn a_key_from_its_parts() {
    let number = std::any::TypeId::of::<i32>();
    let string = std::any::TypeId::of::<String>();
    let plain = AnyKey::from_parts(9, number, "7".to_string(), None, None);
    assert!(plain.is_type(number));
    assert!(!plain.is_type(string));
    assert!(plain.is::<i32>());
    assert!(!plain.is_anonymous());
    assert_eq!(plain.text(), "7");
    assert!(plain.same_key(&AnyKey::new(&7_i32, 9)));
    let shown = "a b".to_string();
    let owned = AnyKey::from_parts(1, string, "\"a b\"".to_string(), Some(&shown), None);
    assert_eq!(owned.text(), "a b");
    assert_eq!(owned.debug(), "\"a b\"");
    assert_eq!(AnyKey::new(&"a b", 1).debug(), "\"a b\"");
    let slice = AnyKey::from_parts(2, std::any::TypeId::of::<&str>(), "\"x\"".to_string(), None, Some("x"));
    assert_eq!(slice.text(), "x");
    let both = AnyKey::from_parts(3, string, "d".to_string(), Some(&shown), Some("x"));
    assert_eq!(both.text(), "a b");
}

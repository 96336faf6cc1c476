use win_widgets::manager::WidgetManager;

fn labels(m: &WidgetManager) -> Vec<String> {
    m.labels()
}

#[test]
fn new_manager_is_empty() {
    let m = WidgetManager::new();
    assert!(labels(&m).is_empty());
}

#[test]
fn add_registers_each_label_once() {
    let mut m = WidgetManager::new();
    m.add("clock".to_string());
    m.add("weather".to_string());
    m.add("clock".to_string());
    assert_eq!(labels(&m), vec!["clock".to_string(), "weather".to_string()]);
    assert!(m.contains(&"clock".to_string()));
    assert!(!m.contains(&"notes".to_string()));
}

#[test]
fn remove_forgets_only_that_label() {
    let mut m = WidgetManager::new();
    m.add("a".to_string());
    m.add("b".to_string());
    m.add("c".to_string());
    m.remove("b");
    assert_eq!(labels(&m), vec!["a".to_string(), "c".to_string()]);
    m.remove("missing");
    assert_eq!(labels(&m), vec!["a".to_string(), "c".to_string()]);
}

#[test]
fn remove_undoes_add_of_new_label() {
    let mut m = WidgetManager::new();
    m.add("a".to_string());
    m.add("b".to_string());
    let before = labels(&m);
    m.add("fresh".to_string());
    m.remove("fresh");
    assert_eq!(labels(&m), before);
}

#[test]
fn adding_twice_equals_adding_once() {
    let mut once = WidgetManager::new();
    once.add("x".to_string());
    let mut twice = WidgetManager::new();
    twice.add("x".to_string());
    twice.add("x".to_string());
    assert_eq!(labels(&once), labels(&twice));
}

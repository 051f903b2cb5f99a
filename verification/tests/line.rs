use ems_model::line::{Line, LineNode};

fn line_of(ids: &[&str]) -> Line {
    let mut line = Line::new("Test Line".to_string(), "line1".to_string());
    for id in ids {
        line.add_step(id.to_string(), format!("Step {}", id), id.to_string());
    }
    line
}

fn position(order: &[String], id: &str) -> usize {
    order.iter().position(|s| s == id).unwrap()
}

#[test]
fn test_add_steps_and_dependencies() {
    let mut line = Line::new("Test Line".to_string(), "line1".to_string());

    line.add_step(
        "step1".to_string(),
        "Step 1".to_string(),
        "step1".to_string(),
    );
    line.add_step(
        "step2".to_string(),
        "Step 2".to_string(),
        "step2".to_string(),
    );
    line.add_step(
        "step3".to_string(),
        "Step 3".to_string(),
        "step3".to_string(),
    );

    // Add dependencies: step1 -> step2 -> step3
    assert!(line
        .add_dependency("step1".to_string(), "step2".to_string())
        .is_ok());
    assert!(line
        .add_dependency("step2".to_string(), "step3".to_string())
        .is_ok());

    let sorted = line.topological_sort().unwrap();
    assert_eq!(sorted, vec!["step1", "step2", "step3"]);
}

#[test]
fn test_cycle_detection() {
    let mut line = Line::new("Test Line".to_string(), "line1".to_string());

    line.add_step(
        "step1".to_string(),
        "Step 1".to_string(),
        "step1".to_string(),
    );
    line.add_step(
        "step2".to_string(),
        "Step 2".to_string(),
        "step2".to_string(),
    );

    // Add dependencies that would create a cycle
    assert!(line
        .add_dependency("step1".to_string(), "step2".to_string())
        .is_ok());
    assert!(line
        .add_dependency("step2".to_string(), "step1".to_string())
        .is_err());
}

#[test]
fn test_get_ready_steps() {
    let mut line = Line::new("Test Line".to_string(), "line1".to_string());

    line.add_step(
        "step1".to_string(),
        "Step 1".to_string(),
        "step1".to_string(),
    );
    line.add_step(
        "step2".to_string(),
        "Step 2".to_string(),
        "step2".to_string(),
    );
    line.add_step(
        "step3".to_string(),
        "Step 3".to_string(),
        "step3".to_string(),
    );

    line.add_dependency("step1".to_string(), "step2".to_string())
        .unwrap();
    line.add_dependency("step2".to_string(), "step3".to_string())
        .unwrap();

    let mut completed = Vec::new();

    // Initially, only step1 should be ready
    let ready = line.get_ready_steps(&completed);
    assert_eq!(ready, vec!["step1"]);

    // After completing step1, step2 should be ready
    completed.push("step1".to_string());
    let ready = line.get_ready_steps(&completed);
    assert_eq!(ready, vec!["step2"]);

    // After completing step2, step3 should be ready
    completed.push("step2".to_string());
    let ready = line.get_ready_steps(&completed);
    assert_eq!(ready, vec!["step3"]);
}

#[test]
fn new_line_is_empty() {
    let line = Line::new("Assembly".to_string(), "L7".to_string());
    assert_eq!(line.name(), "Assembly");
    assert_eq!(line.id(), "L7");
    assert!(line.nodes().is_empty());
    assert_eq!(line.topological_sort(), Some(Vec::new()));
    assert_eq!(line.validate(), Ok(()));
    assert!(line.get_ready_steps(&Vec::new()).is_empty());
}

#[test]
fn new_node_has_no_links() {
    let node = LineNode::new("n1".to_string(), "Cut".to_string(), "s1".to_string());
    assert_eq!(node.id, "n1");
    assert_eq!(node.name, "Cut");
    assert_eq!(node.step_id(), "s1");
    assert!(node.dependencies().is_empty());
    assert!(node.dependents().is_empty());
}

#[test]
fn missing_steps_are_reported() {
    let mut line = line_of(&["a"]);
    assert_eq!(
        line.add_dependency("x".to_string(), "a".to_string()),
        Err("Prerequisite step 'x' does not exist".to_string())
    );
    assert_eq!(
        line.add_dependency("a".to_string(), "y".to_string()),
        Err("Dependent step 'y' does not exist".to_string())
    );
    assert_eq!(
        line.add_dependency("x".to_string(), "y".to_string()),
        Err("Prerequisite step 'x' does not exist".to_string())
    );
    assert!(line.get_dependents("a").unwrap().is_empty());
}

#[test]
fn cycle_is_reported_and_leaves_the_line_unchanged() {
    let mut line = line_of(&["a", "b", "c"]);
    line.add_dependency("a".to_string(), "b".to_string()).unwrap();
    line.add_dependency("b".to_string(), "c".to_string()).unwrap();
    assert_eq!(
        line.add_dependency("c".to_string(), "a".to_string()),
        Err("Adding dependency from 'c' to 'a' would create a cycle".to_string())
    );
    assert_eq!(
        line.add_dependency("a".to_string(), "a".to_string()),
        Err("Adding dependency from 'a' to 'a' would create a cycle".to_string())
    );
    assert!(line.get_dependents("c").unwrap().is_empty());
    assert!(line.get_prerequisites("a").unwrap().is_empty());
    assert_eq!(line.validate(), Ok(()));
}

#[test]
fn links_are_recorded_on_both_ends() {
    let mut line = line_of(&["a", "b", "c"]);
    line.add_dependency("a".to_string(), "c".to_string()).unwrap();
    line.add_dependency("b".to_string(), "c".to_string()).unwrap();
    assert_eq!(line.get_dependents("a").unwrap(), ["c".to_string()]);
    assert_eq!(line.get_dependents("b").unwrap(), ["c".to_string()]);
    assert_eq!(
        line.get_prerequisites("c").unwrap(),
        ["a".to_string(), "b".to_string()]
    );
    assert!(line.get_prerequisites("nowhere").is_none());
    assert!(line.get_dependents("nowhere").is_none());
}

#[test]
fn would_create_cycle_follows_paths() {
    let mut line = line_of(&["a", "b", "c", "d"]);
    line.add_dependency("a".to_string(), "b".to_string()).unwrap();
    line.add_dependency("b".to_string(), "c".to_string()).unwrap();
    assert!(line.would_create_cycle("c", "a"));
    assert!(line.would_create_cycle("b", "a"));
    assert!(line.would_create_cycle("a", "a"));
    assert!(line.would_create_cycle("ghost", "ghost"));
    assert!(!line.would_create_cycle("a", "c"));
    assert!(!line.would_create_cycle("d", "a"));
    assert!(!line.would_create_cycle("a", "d"));
    assert!(!line.would_create_cycle("ghost", "a"));
    assert!(!line.would_create_cycle("a", "ghost"));
}

#[test]
fn topological_sort_respects_a_diamond() {
    let mut line = line_of(&["d", "b", "c", "a"]);
    line.add_dependency("a".to_string(), "b".to_string()).unwrap();
    line.add_dependency("a".to_string(), "c".to_string()).unwrap();
    line.add_dependency("b".to_string(), "d".to_string()).unwrap();
    line.add_dependency("c".to_string(), "d".to_string()).unwrap();
    let order = line.topological_sort().unwrap();
    assert_eq!(order.len(), 4);
    assert!(position(&order, "a") < position(&order, "b"));
    assert!(position(&order, "a") < position(&order, "c"));
    assert!(position(&order, "b") < position(&order, "d"));
    assert!(position(&order, "c") < position(&order, "d"));
    assert_eq!(order, vec!["a", "b", "c", "d"]);
}

#[test]
fn repeated_dependency_is_counted_twice() {
    let mut line = line_of(&["a", "b"]);
    line.add_dependency("a".to_string(), "b".to_string()).unwrap();
    line.add_dependency("a".to_string(), "b".to_string()).unwrap();
    assert_eq!(
        line.get_dependents("a").unwrap(),
        ["b".to_string(), "b".to_string()]
    );
    assert_eq!(line.topological_sort().unwrap(), vec!["a", "b"]);
}

#[test]
fn adding_a_step_again_resets_its_links() {
    let mut line = line_of(&["a", "b"]);
    line.add_dependency("a".to_string(), "b".to_string()).unwrap();
    line.add_step("a".to_string(), "Again".to_string(), "s9".to_string());
    assert_eq!(line.nodes().len(), 2);
    assert_eq!(line.nodes()[0].name, "Again");
    assert_eq!(line.nodes()[0].step_id(), "s9");
    assert!(line.get_dependents("a").unwrap().is_empty());
    assert_eq!(line.get_prerequisites("b").unwrap(), ["a".to_string()]);
    let ready = line.get_ready_steps(&Vec::new());
    assert_eq!(ready, vec!["a"]);
}

#[test]
fn ready_steps_wait_for_every_prerequisite() {
    let mut line = line_of(&["a", "b", "c"]);
    line.add_dependency("a".to_string(), "c".to_string()).unwrap();
    line.add_dependency("b".to_string(), "c".to_string()).unwrap();
    assert_eq!(line.get_ready_steps(&Vec::new()), vec!["a", "b"]);
    assert_eq!(line.get_ready_steps(&vec!["a".to_string()]), vec!["b"]);
    assert_eq!(
        line.get_ready_steps(&vec!["b".to_string(), "a".to_string()]),
        vec!["c"]
    );
    assert!(line
        .get_ready_steps(&vec!["a".to_string(), "b".to_string(), "c".to_string()])
        .is_empty());
}

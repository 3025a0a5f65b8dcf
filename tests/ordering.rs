use cargo_workspace::{
    filter_publishable_packages, find_cycles, topological_sort, CargoError, CargoPackage,
    CargoWorkspace,
};

fn package(name: &str, deps: &[&str], publish: bool) -> CargoPackage {
    CargoPackage {
        name: name.to_string(),
        version: "1.0.0".to_string(),
        path: format!("/ws/{}", name),
        dependencies: deps.iter().map(|d| d.to_string()).collect(),
        publish,
    }
}

fn workspace(packages: Vec<CargoPackage>) -> CargoWorkspace {
    let mut ws = CargoWorkspace::new("/ws".to_string(), Vec::new());
    for p in packages {
        ws.insert_package(p);
    }
    ws
}

fn names(packages: &[CargoPackage]) -> Vec<String> {
    packages.iter().map(|p| p.name.clone()).collect()
}

fn position(order: &[CargoPackage], name: &str) -> usize {
    order.iter().position(|p| p.name == name).unwrap()
}

#[test]
fn chain_is_released_dependencies_first() {
    let ws = workspace(vec![
        package("C", &["B"], true),
        package("A", &[], true),
        package("B", &["A"], true),
    ]);
    let order = topological_sort(&ws).unwrap();
    assert_eq!(names(&order), vec!["A", "B", "C"]);
}

#[test]
fn every_dependency_precedes_its_dependent() {
    let ws = workspace(vec![
        package("app", &["core", "net", "serde"], true),
        package("net", &["core", "util"], true),
        package("core", &["util"], true),
        package("util", &[], true),
        package("cli", &["app", "net"], true),
    ]);
    let order = topological_sort(&ws).unwrap();
    assert_eq!(order.len(), 5);
    for p in &order {
        for d in &p.dependencies {
            if let Some(i) = order.iter().position(|q| &q.name == d) {
                assert!(i < position(&order, &p.name), "{} must precede {}", d, p.name);
            }
        }
    }
}

#[test]
fn sorting_twice_gives_the_same_order() {
    let ws = workspace(vec![
        package("a", &[], true),
        package("b", &[], true),
        package("c", &["a"], true),
        package("d", &["b", "c"], true),
        package("e", &[], true),
    ]);
    let first = names(&topological_sort(&ws).unwrap());
    let second = names(&topological_sort(&ws).unwrap());
    assert_eq!(first, second);
}

#[test]
fn self_and_outside_dependencies_add_no_edge() {
    let ws = workspace(vec![package("solo", &["solo", "serde", "tokio"], true)]);
    let order = topological_sort(&ws).unwrap();
    assert_eq!(names(&order), vec!["solo"]);
    assert!(find_cycles(&ws).is_empty());
}

#[test]
fn empty_workspace_sorts_to_nothing() {
    let ws = workspace(Vec::new());
    assert!(topological_sort(&ws).unwrap().is_empty());
}

#[test]
fn two_package_cycle_is_reported_as_a_chain() {
    let ws = workspace(vec![package("X", &["Y"], true), package("Y", &["X"], true)]);
    match topological_sort(&ws) {
        Err(CargoError::CircularDependency(msg)) => {
            assert!(
                msg == "Circular dependencies detected: X -> Y -> X"
                    || msg == "Circular dependencies detected: Y -> X -> Y",
                "unexpected report: {}",
                msg
            );
        }
        other => panic!("expected a cycle, got {:?}", other),
    }
}

#[test]
fn cycles_are_exactly_the_components_with_several_packages() {
    let ws = workspace(vec![
        package("p", &["r"], true),
        package("q", &["p"], true),
        package("r", &["q"], true),
        package("s", &["t"], true),
        package("t", &["s"], true),
        package("u", &["p"], true),
        package("v", &[], true),
    ]);
    let mut cycles: Vec<Vec<String>> = find_cycles(&ws)
        .into_iter()
        .map(|mut c| {
            c.sort();
            c
        })
        .collect();
    cycles.sort();
    assert_eq!(cycles, vec![vec!["p", "q", "r"], vec!["s", "t"]]);
    match topological_sort(&ws) {
        Err(CargoError::CircularDependency(msg)) => {
            let chains = msg.strip_prefix("Circular dependencies detected: ").unwrap();
            assert_eq!(chains.matches(" -> ").count(), 3 + 2);
            assert!(!chains.contains('u') && !chains.contains('v'));
        }
        other => panic!("expected a cycle, got {:?}", other),
    }
}

#[test]
fn filtering_keeps_order_and_drops_exactly_the_unreleasable() {
    let list = vec![
        package("a", &[], true),
        package("internal", &[], false),
        package("b", &["internal"], true),
        package("tools", &[], false),
        package("c", &[], true),
    ];
    let kept = filter_publishable_packages(list);
    assert_eq!(names(&kept), vec!["a", "b", "c"]);
    assert!(kept.iter().all(|p| p.publish));
}

#[test]
fn unreleasable_dependency_still_orders_its_dependents() {
    let ws = workspace(vec![
        package("top", &["mid"], true),
        package("mid", &["base"], false),
        package("base", &[], true),
    ]);
    let kept = filter_publishable_packages(topological_sort(&ws).unwrap());
    assert_eq!(names(&kept), vec!["base", "top"]);
}

#[test]
fn inserting_a_known_name_replaces_the_package() {
    let mut ws = workspace(vec![package("a", &[], true), package("b", &[], true)]);
    assert!(ws.has_unique_names());
    ws.insert_package(package("a", &["b"], false));
    assert_eq!(ws.packages.len(), 2);
    assert_eq!(ws.packages[0].dependencies, vec!["b".to_string()]);
    assert!(!ws.packages[0].publish);
    assert_eq!(ws.find_package(&"b".to_string()), Some(1));
    assert_eq!(ws.find_package(&"z".to_string()), None);
}

#[test]
fn duplicate_names_are_detected() {
    let ws = CargoWorkspace {
        root: "/ws".to_string(),
        members: Vec::new(),
        packages: vec![package("a", &[], true), package("a", &[], false)],
    };
    assert!(!ws.has_unique_names());
}

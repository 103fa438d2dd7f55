use aurora::scheduler::Scheduler;
use aurora::validate::validate;
use aurora::{parse_str, AuroraError, Beam, Beamfile, DependencyGraph};

fn create_test_beamfile() -> Beamfile {
    let mut bf = Beamfile::new("test");
    bf.add_beam(Beam::new("clean"));
    bf.add_beam(Beam::new("lint"));
    bf.add_beam(Beam::new("build").with_depends_on(vec!["clean".to_string(), "lint".to_string()]));
    bf.add_beam(Beam::new("test").with_depends_on(vec!["build".to_string()]));
    bf
}

#[test]
fn test_topological_order() {
    let bf = create_test_beamfile();
    let dag = DependencyGraph::from_beamfile(&bf).unwrap();

    let order = dag.topological_order("test").unwrap();

    assert_eq!(order.last(), Some(&"test".to_string()));

    let build_pos = order.iter().position(|x| x == "build").unwrap();
    let test_pos = order.iter().position(|x| x == "test").unwrap();
    assert!(build_pos < test_pos);

    let clean_pos = order.iter().position(|x| x == "clean").unwrap();
    let lint_pos = order.iter().position(|x| x == "lint").unwrap();
    assert!(clean_pos < build_pos);
    assert!(lint_pos < build_pos);
}

#[test]
fn test_parallel_levels() {
    let bf = create_test_beamfile();
    let dag = DependencyGraph::from_beamfile(&bf).unwrap();

    let levels = dag.parallel_levels("test").unwrap();

    assert_eq!(levels[0].len(), 2);
    assert!(levels[0].contains(&"clean".to_string()));
    assert!(levels[0].contains(&"lint".to_string()));
    assert_eq!(levels[1], vec!["build".to_string()]);
    assert_eq!(levels[2], vec!["test".to_string()]);
}

#[test]
fn test_cycle_detection() {
    let mut bf = Beamfile::new("test");
    bf.add_beam(Beam::new("a").with_depends_on(vec!["c".to_string()]));
    bf.add_beam(Beam::new("b").with_depends_on(vec!["a".to_string()]));
    bf.add_beam(Beam::new("c").with_depends_on(vec!["b".to_string()]));

    let result = DependencyGraph::from_beamfile(&bf);
    assert!(result.is_err());
}

#[test]
fn order_holds_only_what_the_target_needs() {
    let bf = create_test_beamfile();
    let dag = DependencyGraph::from_beamfile(&bf).unwrap();
    let order = dag.topological_order("build").unwrap();
    assert_eq!(order.len(), 3);
    assert!(!order.contains(&"test".to_string()));
    assert_eq!(order.last(), Some(&"build".to_string()));
    assert_eq!(dag.topological_order("clean").unwrap(), vec!["clean".to_string()]);
}

#[test]
fn unknown_target_is_beam_not_found() {
    let bf = create_test_beamfile();
    let dag = DependencyGraph::from_beamfile(&bf).unwrap();
    assert!(matches!(dag.topological_order("deploy"), Err(AuroraError::BeamNotFound(_))));
    assert!(matches!(dag.parallel_levels("deploy"), Err(AuroraError::BeamNotFound(_))));
}

#[test]
fn undeclared_dependency_is_beam_not_found() {
    let mut bf = Beamfile::new("test");
    bf.add_beam(Beam::new("a").with_depends_on(vec!["ghost".to_string()]));
    assert!(matches!(DependencyGraph::from_beamfile(&bf), Err(AuroraError::BeamNotFound(_))));
}

#[test]
fn self_dependency_is_a_cycle() {
    let mut bf = Beamfile::new("test");
    bf.add_beam(Beam::new("a").with_depends_on(vec!["a".to_string()]));
    assert!(matches!(DependencyGraph::from_beamfile(&bf), Err(AuroraError::CycleDetected(_))));
}

#[test]
fn levels_of_the_seed_beamfile() {
    let bf = parse_str(
        r#"
        beam "clean" {}
        beam "lint" {}
        beam "build" { depends_on = ["clean", "lint"] }
        beam "test" { depends_on = ["build"] }
        "#,
    )
    .unwrap();
    let dag = DependencyGraph::from_beamfile(&bf).unwrap();
    let levels = dag.parallel_levels("test").unwrap();
    assert_eq!(levels.len(), 3);
    let mut first = levels[0].clone();
    first.sort();
    assert_eq!(first, vec!["clean".to_string(), "lint".to_string()]);
    assert_eq!(levels[1], vec!["build".to_string()]);
    assert_eq!(levels[2], vec!["test".to_string()]);

    let plan = Scheduler::new(dag).with_max_parallelism(4).execution_plan("test").unwrap();
    assert_eq!(plan.levels.len(), 3);
    assert_eq!(plan.total_beams(), 4);
    assert!(plan.levels[0].is_parallel());
    assert!(!plan.levels[1].is_parallel());
    assert_eq!(plan.all_beams().last(), Some(&"test".to_string()));
}

#[test]
fn three_beam_cycle_parses_but_fails_the_graph() {
    let bf = parse_str(
        r#"
        beam "a" { depends_on = ["c"] }
        beam "b" { depends_on = ["a"] }
        beam "c" { depends_on = ["b"] }
        "#,
    )
    .unwrap();
    assert!(matches!(DependencyGraph::from_beamfile(&bf), Err(AuroraError::CycleDetected(_))));
}

#[test]
fn missing_default_beam_fails_validation() {
    let bf = parse_str(
        r#"
        beam "test" {}
        default = "build"
        "#,
    )
    .unwrap();
    assert!(matches!(validate(&bf), Err(AuroraError::BeamNotFound(_))));
    let ok = parse_str(r#"beam "build" {} default = "build""#).unwrap();
    assert!(validate(&ok).is_ok());
}

#[test]
fn max_parallelism_is_at_least_one() {
    let bf = create_test_beamfile();
    let dag = DependencyGraph::from_beamfile(&bf).unwrap();
    let s = Scheduler::new(dag);
    assert!(s.max_parallelism() >= 1);
    assert_eq!(s.with_max_parallelism(0).max_parallelism(), 1);
}

#[test]
fn wide_levels_stay_in_one_level() {
    let mut bf = Beamfile::new("wide");
    let mut deps = Vec::new();
    for i in 0..10 {
        let name = format!("beam{}", i);
        bf.add_beam(Beam::new(&name));
        deps.push(name);
    }
    bf.add_beam(Beam::new("all").with_depends_on(deps));
    let dag = DependencyGraph::from_beamfile(&bf).unwrap();
    let levels = dag.parallel_levels("all").unwrap();
    assert_eq!(levels.len(), 2);
    assert_eq!(levels[0].len(), 10);
    assert_eq!(levels[1], vec!["all".to_string()]);
}

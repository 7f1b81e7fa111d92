use avail_light_p2p::startup::{advance_startup, first_startup_step, Startup, StartupStep};

#[test]
fn failed_dial_of_second_node_stops_before_bootstrap() {
    let n = 2;
    let mut performed = Vec::new();
    let mut step = first_startup_step(n);
    let result = loop {
        performed.push(step);
        let ok = step != StartupStep::Dial(1);
        match advance_startup(n, step, ok) {
            Startup::Perform(next) => step = next,
            done => break done,
        }
    };
    assert_eq!(result, Startup::Failed(StartupStep::Dial(1)));
    assert!(performed.contains(&StartupStep::AddAddress(0)));
    assert!(!performed.contains(&StartupStep::Bootstrap));
}

#[test]
fn successful_startup_runs_every_step_then_bootstraps() {
    let n = 2;
    let mut performed = Vec::new();
    let mut step = first_startup_step(n);
    let result = loop {
        performed.push(step);
        match advance_startup(n, step, true) {
            Startup::Perform(next) => step = next,
            done => break done,
        }
    };
    assert_eq!(result, Startup::Succeeded);
    assert_eq!(
        performed,
        vec![
            StartupStep::Dial(0),
            StartupStep::AddAddress(0),
            StartupStep::AddAutonatServer(0),
            StartupStep::Dial(1),
            StartupStep::AddAddress(1),
            StartupStep::AddAutonatServer(1),
            StartupStep::Bootstrap,
        ]
    );
}

#[test]
fn startup_without_nodes_only_bootstraps() {
    assert_eq!(first_startup_step(0), StartupStep::Bootstrap);
    assert_eq!(advance_startup(0, StartupStep::Bootstrap, false), Startup::Failed(StartupStep::Bootstrap));
}

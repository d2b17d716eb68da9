use rust_markov_lib::error::MdpError;
use rust_markov_lib::fixed::SCALE;
use rust_markov_lib::model::{MatrixEmission, MatrixReward, MatrixTransition};
use rust_markov_lib::pomdp_agent::POMDPAgent;

fn units(a: Vec<Vec<Vec<f64>>>) -> Vec<Vec<Vec<i64>>> {
    a.iter()
        .map(|x| x.iter().map(|y| y.iter().map(|z| (z * SCALE as f64).round() as i64).collect()).collect())
        .collect()
}

fn table(
    rows: &[&str],
    actions: &[&str],
    cols: &[&str],
    f: impl Fn(&str, &str, &str) -> f64,
) -> Vec<Vec<Vec<i64>>> {
    let mut t = Vec::new();
    for s in rows {
        let mut row = Vec::new();
        for a in actions {
            row.push(cols.iter().map(|c| (f(s, a, c) * SCALE as f64).round() as i64).collect());
        }
        t.push(row);
    }
    t
}

const STATES: [&str; 2] = ["tiger_left", "tiger_right"];
const ACTIONS: [&str; 3] = ["open_left", "open_right", "listen"];
const OBSERVATIONS: [&str; 3] = ["roar_left", "roar_right", "nothing"];

fn tiger_transition(s1: &str, _a: &str, s2: &str) -> f64 {
    if s1 == s2 {
        1.0
    } else {
        0.0
    }
}

fn tiger_emission(s: &str, a: &str, o: &str) -> f64 {
    match (s, a) {
        ("tiger_left", "listen") => match o {
            "roar_left" => 0.8,
            "roar_right" => 0.2,
            "nothing" => 0.0,
            _ => panic!("Should not be here"),
        },
        ("tiger_right", "listen") => match o {
            "roar_right" => 0.8,
            "roar_left" => 0.2,
            "nothing" => 0.0,
            _ => panic!("Should not be here"),
        },
        (_, "open_left") => match o {
            "nothing" => 1.0,
            _ => 0.0,
        },
        (_, "open_right") => match o {
            "nothing" => 1.0,
            _ => 0.0,
        },
        _ => panic!("Should not be here"),
    }
}

fn tiger_reward(s1: &str, a: &str, _s2: &str) -> f64 {
    match (s1, a) {
        ("tiger_left", "open_left") => -100.0,
        ("tiger_left", "open_right") => 100.0,
        ("tiger_right", "open_left") => 100.0,
        ("tiger_right", "open_right") => -100.0,
        (_, "listen") => 0.0,
        _ => panic!("Should not reach here..."),
    }
}

fn names(v: &[&str]) -> Vec<String> {
    v.iter().map(|x| x.to_string()).collect()
}

fn tiger(
    t: impl Fn(&str, &str, &str) -> f64,
    e: impl Fn(&str, &str, &str) -> f64,
    r: impl Fn(&str, &str, &str) -> f64,
) -> POMDPAgent<String, String, String, MatrixTransition, MatrixEmission, MatrixReward> {
    POMDPAgent::new(
        names(&STATES),
        names(&ACTIONS),
        names(&OBSERVATIONS),
        MatrixTransition::new(table(&STATES, &ACTIONS, &STATES, t)),
        MatrixEmission::new(table(&STATES, &ACTIONS, &OBSERVATIONS, e)),
        MatrixReward::new(table(&STATES, &ACTIONS, &STATES, r)),
        900_000,
    )
}

#[test]
fn create_valid_pomdp() {
    let agent = tiger(tiger_transition, tiger_emission, tiger_reward);
    assert!(agent.validate());
}

#[test]
#[should_panic]
fn create_invalid_transition_pomdp() {
    let agent = tiger(|_, _, _| 1.0, tiger_emission, tiger_reward);
    assert!(agent.validate());
}

#[test]
#[should_panic]
fn create_invalid_reward_pomdp() {
    let agent = tiger(tiger_transition, tiger_emission, |_, _, _| 0.0);
    assert!(agent.validate());
}

#[test]
#[should_panic]
fn create_invalid_emission_pomdp() {
    let agent = tiger(tiger_transition, |_, _, _| 0.9, tiger_reward);
    assert!(agent.validate());
}

fn transition_array() -> Vec<Vec<Vec<f64>>> {
    vec![
        vec![vec![0.2, 0.8, 0.0], vec![0.3, 0.3, 0.4]],
        vec![vec![0.8, 0.1, 0.1], vec![0.1, 0.1, 0.8]],
        vec![vec![0.2, 0.7, 0.1], vec![0.5, 0.0, 0.5]],
    ]
}

fn emission_array() -> Vec<Vec<Vec<f64>>> {
    vec![
        vec![vec![0.8, 0.2], vec![0.5, 0.5]],
        vec![vec![1.0, 0.0], vec![0.9, 0.1]],
        vec![vec![0.0, 1.0], vec![0.0, 1.0]],
    ]
}

fn reward_array() -> Vec<Vec<Vec<f64>>> {
    vec![
        vec![vec![0.0, 0.0, 10.0], vec![0.0, 5.0, 0.0]],
        vec![vec![0.0, 0.0, 0.0], vec![0.0, 0.0, 0.0]],
        vec![vec![0.0, -10.0, 0.0], vec![0.0, -10.0, 0.0]],
    ]
}

#[test]
fn create_valid_matrix_pomdp() {
    let t: MatrixTransition = MatrixTransition::new(units(transition_array()));
    let e: MatrixEmission = MatrixEmission::new(units(emission_array()));
    let r: MatrixReward = MatrixReward::new(units(reward_array()));
    let pomdp_agent = POMDPAgent::new_matrix(3, 2, 2, t, e, r, 900_000).unwrap();
    assert!(pomdp_agent.validate());
}

#[test]
#[should_panic]
fn create_invalid_transition_matrix_pomdp() {
    let transition_array = vec![
        vec![vec![0.2, 0.8, 0.0], vec![0.3, 0.3, 0.4]],
        vec![vec![0.8, 0.5, 0.1], vec![0.1, 0.1, 0.8]],
        vec![vec![0.2, 0.7, 0.1], vec![0.5, 0.0, 0.5]],
    ];
    let t: MatrixTransition = MatrixTransition::new(units(transition_array));
    let e: MatrixEmission = MatrixEmission::new(units(emission_array()));
    let r: MatrixReward = MatrixReward::new(units(reward_array()));
    let pomdp_agent = POMDPAgent::new_matrix(3, 2, 2, t, e, r, 900_000).unwrap();
    assert!(pomdp_agent.validate());
}

#[test]
#[should_panic]
fn create_invalid_emission_matrix_pomdp() {
    let emission_array = vec![
        vec![vec![0.8, 0.3], vec![0.5, 0.5]],
        vec![vec![1.0, 0.0], vec![0.9, 0.1]],
        vec![vec![0.0, 1.0], vec![0.0, 1.0]],
    ];
    let t: MatrixTransition = MatrixTransition::new(units(transition_array()));
    let e: MatrixEmission = MatrixEmission::new(units(emission_array));
    let r: MatrixReward = MatrixReward::new(units(reward_array()));
    let pomdp_agent = POMDPAgent::new_matrix(3, 2, 2, t, e, r, 900_000).unwrap();
    assert!(pomdp_agent.validate());
}

#[test]
#[should_panic]
fn create_invalid_reward_matrix_pomdp() {
    let reward_array = vec![
        vec![vec![0.0, 0.0, 0.0], vec![0.0, 0.0, 0.0]],
        vec![vec![0.0, 0.0, 0.0], vec![0.0, 0.0, 0.0]],
        vec![vec![0.0, 0.0, 0.0], vec![0.0, 0.0, 0.0]],
    ];
    let t: MatrixTransition = MatrixTransition::new(units(transition_array()));
    let e: MatrixEmission = MatrixEmission::new(units(emission_array()));
    let r: MatrixReward = MatrixReward::new(units(reward_array));
    let pomdp_agent = POMDPAgent::new_matrix(3, 2, 2, t, e, r, 900_000).unwrap();
    assert!(pomdp_agent.validate());
}

#[test]
fn pomdp_new_matrix_rejects_wrong_emission_shape() {
    let t = MatrixTransition::new(units(transition_array()));
    let e = MatrixEmission::new(units(emission_array()));
    let r = MatrixReward::new(units(reward_array()));
    assert!(matches!(POMDPAgent::new_matrix(3, 2, 3, t, e, r, 900_000), Err(MdpError::MalformedModel)));
}

#[test]
fn pomdp_emission_tolerance_is_configurable() {
    let emission = vec![
        vec![vec![0.8, 0.205], vec![0.5, 0.5]],
        vec![vec![1.0, 0.0], vec![0.9, 0.1]],
        vec![vec![0.0, 1.0], vec![0.0, 1.0]],
    ];
    let t = MatrixTransition::new(units(transition_array()));
    let e = MatrixEmission::new(units(emission));
    let r = MatrixReward::new(units(reward_array()));
    let agent = POMDPAgent::new_matrix(3, 2, 2, t, e, r, 900_000).unwrap();
    assert!(agent.validate());
    let agent = agent.with_tolerance(1_000);
    assert!(!agent.validate());
}

use rust_markov_lib::error::MdpError;
use rust_markov_lib::fixed::{floor_div, SCALE};
use rust_markov_lib::mdp_agent::MDPAgent;
use rust_markov_lib::model::{MatrixReward, MatrixTransition};
use rust_markov_lib::value_iteration::ValueIteration;

fn table(states: &[&str], actions: &[&str], f: impl Fn(&str, &str, &str) -> f64) -> Vec<Vec<Vec<i64>>> {
    let mut t = Vec::new();
    for s1 in states {
        let mut row = Vec::new();
        for a in actions {
            row.push(states.iter().map(|s2| (f(s1, a, s2) * SCALE as f64).round() as i64).collect());
        }
        t.push(row);
    }
    t
}

const STATES: [&str; 4] = ["class1", "class2", "facebook", "passed"];
const ACTIONS: [&str; 2] = ["study", "distract"];

fn student_transition(s1: &str, a: &str, s2: &str) -> f64 {
    match (s1, a) {
        ("class1", "study") => match s2 {
            "class1" => 0.2,
            "class2" => 0.8,
            _ => 0.0,
        },
        ("class1", "distract") => match s2 {
            "facebook" => 1.0,
            _ => 0.0,
        },
        ("class2", "study") => match s2 {
            "passed" => 0.9,
            "class2" => 0.1,
            _ => 0.0,
        },
        ("class2", "distract") => match s2 {
            "facebook" => 1.0,
            _ => 0.0,
        },
        ("passed", _) => match s2 {
            "passed" => 1.0,
            _ => 0.0,
        },
        ("facebook", "study") => match s2 {
            "class1" => 0.5,
            "facebook" => 0.5,
            _ => 0.0,
        },
        ("facebook", "distract") => match s2 {
            "facebook" => 1.0,
            _ => 0.0,
        },
        _ => 0.0,
    }
}

fn student_reward(s1: &str, a: &str, s2: &str) -> f64 {
    if s1 == "passed" && a == "distract" {
        2.0
    } else if s1 != "passed" && s2 == "passed" {
        10.0
    } else {
        0.0
    }
}

fn create_student_mdp() -> MDPAgent<String, String, MatrixTransition, MatrixReward> {
    let states: Vec<String> = STATES.iter().map(|x| x.to_string()).collect();
    let actions: Vec<String> = ACTIONS.iter().map(|x| x.to_string()).collect();
    let transitions = MatrixTransition::new(table(&STATES, &ACTIONS, student_transition));
    let rewards = MatrixReward::new(table(&STATES, &ACTIONS, student_reward));
    MDPAgent::new(states, actions, transitions, rewards, 900_000)
}

fn approx(v: i64, expected: f64, epsilon: f64) -> bool {
    ((v as f64) / (SCALE as f64) - expected).abs() <= epsilon
}

#[test]
fn value_iteration_solve() {
    let mdp = create_student_mdp();
    let mut solver = ValueIteration::new(&mdp, 10_000).unwrap();

    solver.solve();
    let optimal_utility_vector = solver.get_value_vector().unwrap();
    let optimal_policy = solver.get_policy().unwrap();
    for (i, v) in optimal_utility_vector.iter().enumerate() {
        let s = &mdp.states[i];
        match s.as_str() {
            "class1" => assert!(approx(*v, 24.3060, 0.0002), "v = {}", *v),
            "class2" => assert!(approx(*v, 27.6831, 0.0002), "v = {}", *v),
            "facebook" => assert!(approx(*v, 19.8851, 0.0002), "v = {}", *v),
            "passed" => assert!(approx(*v, 19.9908, 0.0002), "v = {}", *v),
            _ => panic!("State {} should not be present", s),
        }
    }

    for (i, a) in optimal_policy.iter().enumerate() {
        let s = &mdp.states[i];
        let a = &mdp.actions[*a];
        match s.as_str() {
            "class1" => assert!(a.as_str().eq("study")),
            "class2" => assert!(a.as_str().eq("study")),
            "facebook" => assert!(a.as_str().eq("study")),
            "passed" => assert!(a.as_str().eq("distract")),
            _ => panic!("State {} should not be present", s),
        }
    }
}

#[test]
fn student_values_in_units() {
    let mdp = create_student_mdp();
    let mut solver = ValueIteration::new(&mdp, 10_000).unwrap();
    solver.solve();
    assert_eq!(solver.get_value_vector().unwrap(), &vec![24_306_056, 27_683_167, 19_885_112, 19_990_859]);
    assert_eq!(solver.get_policy().unwrap(), &vec![0, 0, 0, 1]);
}

#[test]
fn queries_before_solve_are_none() {
    let mdp = create_student_mdp();
    let solver = ValueIteration::new(&mdp, 10_000).unwrap();
    assert!(solver.get_value_vector().is_none());
    assert!(solver.get_policy().is_none());
}

#[test]
fn solving_twice_restarts_from_zero() {
    let mdp = create_student_mdp();
    let mut solver = ValueIteration::new(&mdp, 10_000).unwrap();
    solver.solve();
    let first = solver.get_value_vector().unwrap().clone();
    let first_policy = solver.get_policy().unwrap().clone();
    solver.solve();
    assert_eq!(solver.get_value_vector().unwrap(), &first);
    assert_eq!(solver.get_policy().unwrap(), &first_policy);
}

#[test]
fn discount_outside_open_interval_is_rejected() {
    for g in [0, -5, SCALE, SCALE + 1] {
        let mut mdp = create_student_mdp();
        mdp.discount = g;
        assert!(matches!(ValueIteration::new(&mdp, 10_000), Err(MdpError::InvalidDiscount)));
    }
}

#[test]
fn unreachable_tolerance_is_rejected() {
    let mdp = create_student_mdp();
    assert!(matches!(ValueIteration::new(&mdp, 0), Err(MdpError::InvalidTolerance)));
    assert!(matches!(ValueIteration::new(&mdp, -1), Err(MdpError::InvalidTolerance)));
    // At 0.9 the finest tolerance is 0.9 / (0.1 * 0.1) units, that is 90.
    assert!(matches!(ValueIteration::new(&mdp, 89), Err(MdpError::InvalidTolerance)));
    assert!(ValueIteration::new(&mdp, 90).is_ok());
}

fn two_state_mdp(discount: i64) -> MDPAgent<usize, usize, MatrixTransition, MatrixReward> {
    let transitions = vec![
        vec![vec![200_000, 800_000], vec![400_000, 600_000], vec![0, 1_000_000]],
        vec![vec![800_000, 200_000], vec![300_000, 700_000], vec![1_000_000, 0]],
    ];
    let rewards = vec![
        vec![vec![SCALE, SCALE], vec![SCALE, SCALE], vec![SCALE, SCALE]],
        vec![vec![0, 0], vec![0, 0], vec![0, 0]],
    ];
    MDPAgent::new_matrix(2, 3, MatrixTransition::new(transitions), MatrixReward::new(rewards), discount).unwrap()
}

#[test]
fn q_value_from_zero_vector() {
    let mdp = two_state_mdp(950_000);
    let solver = ValueIteration::new(&mdp, 10_000).unwrap();
    assert_eq!(solver.q_value(0, 0, &vec![0, 0]), 1_000_000);
    assert_eq!(solver.q_value(1, 2, &vec![0, 0]), 0);
}

#[test]
fn q_value_from_non_zero_vector() {
    let mdp = two_state_mdp(950_000);
    let solver = ValueIteration::new(&mdp, 10_000).unwrap();
    assert_eq!(solver.q_value(0, 0, &vec![5_000_000, 3_000_000]), 4_230_000);
    // 0.8 * 0.95 * 0.000001 + 0.2 * 0.95 * 0 rounds down to zero units.
    assert_eq!(solver.q_value(1, 0, &vec![1, 0]), 0);
    assert_eq!(solver.q_value(1, 0, &vec![-1, 0]), -1);
}

#[test]
fn equal_returns_pick_the_first_action() {
    // Both actions lead to the same place with the same reward in every state.
    let row = vec![vec![500_000, 500_000], vec![500_000, 500_000]];
    let transitions = vec![row.clone(), row];
    let rewards = vec![
        vec![vec![SCALE, 0], vec![SCALE, 0]],
        vec![vec![0, 2 * SCALE], vec![0, 2 * SCALE]],
    ];
    let mdp = MDPAgent::new_matrix(2, 2, MatrixTransition::new(transitions), MatrixReward::new(rewards), 500_000)
        .unwrap();
    for _ in 0..3 {
        let mut solver = ValueIteration::new(&mdp, 10_000).unwrap();
        solver.solve();
        assert_eq!(solver.get_policy().unwrap(), &vec![0, 0]);
    }
}

#[test]
fn later_strictly_better_action_wins() {
    let transitions = vec![vec![vec![SCALE], vec![SCALE], vec![SCALE]]];
    let rewards = vec![vec![vec![SCALE], vec![3 * SCALE], vec![3 * SCALE]]];
    let mdp = MDPAgent::new_matrix(1, 3, MatrixTransition::new(transitions), MatrixReward::new(rewards), 500_000)
        .unwrap();
    let mut solver = ValueIteration::new(&mdp, 10_000).unwrap();
    solver.solve();
    assert_eq!(solver.get_policy().unwrap(), &vec![1]);
    // The values approach 3 / (1 - 0.5) = 6.
    let v = solver.get_value_vector().unwrap()[0];
    assert!(v <= 6 * SCALE && v >= 6 * SCALE - 10_000);
}

#[test]
fn terminates_on_small_model_near_one_discount() {
    let mdp = two_state_mdp(990_000);
    let mut solver = ValueIteration::new(&mdp, 1_000_000).unwrap();
    solver.solve();
    assert!(solver.get_value_vector().is_some());
    let mdp = two_state_mdp(100_000);
    let mut solver = ValueIteration::new(&mdp, 10_000).unwrap();
    solver.solve();
    assert!(solver.get_value_vector().is_some());
}

#[test]
fn dense_and_named_models_solve_alike() {
    let named = create_student_mdp();
    let dense = MDPAgent::new_matrix(
        4,
        2,
        MatrixTransition::new(table(&STATES, &ACTIONS, student_transition)),
        MatrixReward::new(table(&STATES, &ACTIONS, student_reward)),
        900_000,
    )
    .unwrap();
    let mut a = ValueIteration::new(&named, 10_000).unwrap();
    let mut b = ValueIteration::new(&dense, 10_000).unwrap();
    a.solve();
    b.solve();
    assert_eq!(a.get_value_vector(), b.get_value_vector());
    assert_eq!(a.get_policy(), b.get_policy());
}

#[test]
fn floor_div_rounds_down() {
    assert_eq!(floor_div(7, 2), 3);
    assert_eq!(floor_div(-7, 2), -4);
    assert_eq!(floor_div(-8, 2), -4);
    assert_eq!(floor_div(0, 5), 0);
    assert_eq!(floor_div(-1, 1_000_000_000_000), -1);
}

#[test]
fn student_model_is_solvable() {
    assert!(create_student_mdp().check_solvable());
}

#[test]
fn unsolvable_models_are_detected() {
    let mut mdp = create_student_mdp();
    mdp.discount = SCALE;
    assert!(!mdp.check_solvable());

    let off = |s1: &str, a: &str, s2: &str| {
        if s1 == "facebook" && a == "study" && s2 == "class1" {
            0.51
        } else {
            student_transition(s1, a, s2)
        }
    };
    let mdp = MDPAgent::new(
        STATES.iter().map(|x| x.to_string()).collect(),
        ACTIONS.iter().map(|x| x.to_string()).collect(),
        MatrixTransition::new(table(&STATES, &ACTIONS, off)),
        MatrixReward::new(table(&STATES, &ACTIONS, student_reward)),
        900_000,
    );
    assert!(mdp.validate());
    assert!(!mdp.check_solvable());

    let mut t = table(&STATES, &ACTIONS, student_transition);
    t[0][0][0] = -200_000;
    t[0][0][1] = 1_200_000;
    let mdp = MDPAgent::new_matrix(4, 2, MatrixTransition::new(t), MatrixReward::new(table(&STATES, &ACTIONS, student_reward)), 900_000)
        .unwrap();
    assert!(!mdp.check_solvable());

    let mut r = table(&STATES, &ACTIONS, student_reward);
    r[3][1][3] = 1_000_000_000_001;
    let mdp = MDPAgent::new_matrix(4, 2, MatrixTransition::new(table(&STATES, &ACTIONS, student_transition)), MatrixReward::new(r), 900_000)
        .unwrap();
    assert!(!mdp.check_solvable());
}

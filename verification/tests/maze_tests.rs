use synacor::maze::{
    accept, backtrack, build_transitions, create_next, reject, shortest_solution, solve_maze, Move,
    Node, State,
};

fn state(node: Node, step: u32, number: i64) -> State {
    State {
        current_node: node,
        current_step: step,
        expression_number: number,
        path: vec![],
        expression: String::new(),
    }
}

#[test]
fn transition_table() {
    let t = build_transitions();
    assert!(t.get(Node::Door).is_none());
    assert_eq!(t.get(Node::Start).unwrap().len(), 4);
    assert_eq!(t.get(Node::Middle11).unwrap().len(), 12);
    assert_eq!(t.get(Node::Start).unwrap()[0], (Node::Bottom9, Move::Minus9));
    assert_eq!(t.get(Node::Top8).unwrap()[6], (Node::Door, Move::Minus1));
}

#[test]
fn moves() {
    assert_eq!(Move::Times18.apply(3), 54);
    assert_eq!(Move::Minus11.apply(3), -8);
    assert_eq!(Move::Identity.apply(30), 30);
    assert_eq!(Move::Plus4.label(), " + 4");
    assert_eq!(Move::Identity.label(), " * 1");
}

#[test]
fn start_state() {
    let s = State::new();
    assert_eq!(s.current_node, Node::Start);
    assert_eq!(s.current_step, 0);
    assert_eq!(s.expression_number, 22);
    assert!(s.path.is_empty());
    assert_eq!(s.expression, "");
}

#[test]
fn taking_a_transition() {
    let s = State::new();
    let n = create_next(&s, &(Node::Middle4, Move::Plus4));
    assert_eq!(n.current_node, Node::Middle4);
    assert_eq!(n.current_step, 1);
    assert_eq!(n.expression_number, 26);
    assert_eq!(n.path, vec![Node::Middle4]);
    assert_eq!(n.expression, " + 4");
    let n2 = create_next(&n, &(Node::Middle11, Move::Minus11));
    assert_eq!(n2.expression_number, 15);
    assert_eq!(n2.path, vec![Node::Middle4, Node::Middle11]);
    assert_eq!(n2.expression, " + 4 - 11");
}

#[test]
fn acceptance_and_rejection() {
    assert!(accept(&state(Node::Door, 8, 30)));
    assert!(!accept(&state(Node::Door, 9, 30)));
    assert!(!accept(&state(Node::Door, 3, 31)));
    assert!(reject(&state(Node::Right18, 2, -1)));
    assert!(reject(&state(Node::Bottom9, 7, 10)));
    assert!(!reject(&state(Node::Right18, 7, 10)));
    assert!(reject(&state(Node::Top8, 8, 10)));
    assert!(!reject(&state(Node::Door, 8, 10)));
}

#[test]
fn backtrack_from_a_dead_end_adds_nothing() {
    let t = build_transitions();
    let mut sol = Vec::new();
    backtrack(state(Node::Door, 8, 31), &t, &mut sol);
    assert!(sol.is_empty());
    backtrack(state(Node::Door, 5, 30), &t, &mut sol);
    assert_eq!(sol.len(), 1);
}

#[test]
fn the_maze_has_317_solutions() {
    let sols = solve_maze();
    assert_eq!(sols.len(), 317);
    for s in &sols {
        assert_eq!(s.current_node, Node::Door);
        assert_eq!(s.expression_number, 30);
        assert!(s.current_step <= 8);
        assert_eq!(s.path.len() as u32, s.current_step);
    }
    assert_eq!(sols[0].expression, " - 9 - 4 - 4 * 11 - 9 - 4 - 11 - 1");
}

#[test]
fn the_shortest_solution() {
    let sols = solve_maze();
    let best = shortest_solution(&sols).unwrap();
    assert_eq!(best, 233);
    let s = &sols[best];
    assert_eq!(s.current_step, 6);
    assert_eq!(
        s.path,
        vec![Node::Middle4, Node::Middle11, Node::Middle4, Node::Right18, Node::Middle11, Node::Door]
    );
    assert_eq!(s.expression, " + 4 - 11 * 4 - 18 - 11 - 1");
    assert_eq!(shortest_solution(&Vec::new()), None);
}

#[test]
fn backtrack_past_the_last_transition_returns_at_once() {
    let t = build_transitions();
    let mut sol = Vec::new();
    backtrack(state(Node::Start, 9, -1), &t, &mut sol);
    assert!(sol.is_empty());
    backtrack(state(Node::Door, 9, 30), &t, &mut sol);
    backtrack(state(Node::Door, 12, 7), &t, &mut sol);
    assert!(sol.is_empty());
}

use synacor::coins::{
    equation_is_defined, generate_permutations, number_to_coin, solve_coins, solves_equation,
};

#[test]
fn heap_order_of_three() {
    assert_eq!(
        generate_permutations(&[1, 2, 3]),
        vec![vec![1, 2, 3], vec![2, 1, 3], vec![3, 1, 2], vec![1, 3, 2], vec![2, 3, 1], vec![3, 2, 1]]
    );
}

#[test]
fn heap_order_of_four() {
    let expected: Vec<Vec<u32>> = vec![
        vec![1, 2, 3, 4], vec![2, 1, 3, 4], vec![3, 1, 2, 4], vec![1, 3, 2, 4],
        vec![2, 3, 1, 4], vec![3, 2, 1, 4], vec![4, 2, 1, 3], vec![2, 4, 1, 3],
        vec![1, 4, 2, 3], vec![4, 1, 2, 3], vec![2, 1, 4, 3], vec![1, 2, 4, 3],
        vec![1, 3, 4, 2], vec![3, 1, 4, 2], vec![4, 1, 3, 2], vec![1, 4, 3, 2],
        vec![3, 4, 1, 2], vec![4, 3, 1, 2], vec![4, 3, 2, 1], vec![3, 4, 2, 1],
        vec![2, 4, 3, 1], vec![4, 2, 3, 1], vec![3, 2, 4, 1], vec![2, 3, 4, 1],
    ];
    assert_eq!(generate_permutations(&[1, 2, 3, 4]), expected);
}

#[test]
fn repeated_elements_repeat_orders() {
    let perms = generate_permutations(&[7, 7]);
    assert_eq!(perms, vec![vec![7, 7], vec![7, 7]]);
}

#[test]
fn permutation_counts() {
    assert_eq!(generate_permutations(&[]), vec![Vec::<u32>::new()]);
    assert_eq!(generate_permutations(&[5]), vec![vec![5]]);
    assert_eq!(generate_permutations(&[2, 3, 5, 7, 9]).len(), 120);
    let mut all = generate_permutations(&[1, 2, 3, 4, 5, 6]);
    assert_eq!(all.len(), 720);
    all.sort();
    all.dedup();
    assert_eq!(all.len(), 720);
}

#[test]
fn every_order_holds_the_same_coins() {
    for perm in generate_permutations(&[2, 3, 5, 7, 9]) {
        let mut sorted = perm.clone();
        sorted.sort();
        assert_eq!(sorted, vec![2, 3, 5, 7, 9]);
    }
}

#[test]
fn the_equation() {
    assert!(solves_equation(&[9, 2, 5, 7, 3]));
    assert!(!solves_equation(&[2, 3, 5, 7, 9]));
    assert!(!solves_equation(&[9, 2, 5, 3, 7]));
}

#[test]
fn exactly_one_order_solves_the_puzzle() {
    let solutions: Vec<Vec<u32>> = generate_permutations(&[2, 3, 5, 7, 9])
        .into_iter()
        .filter(|p| equation_is_defined(p) && solves_equation(p))
        .collect();
    assert_eq!(solutions, vec![vec![9, 2, 5, 7, 3]]);
}

#[test]
fn equation_definedness() {
    assert!(equation_is_defined(&[9, 2, 5, 7, 3]));
    assert!(equation_is_defined(&[2, 3, 5, 7, 9]));
    assert!(!equation_is_defined(&[1, 2, 3, 4]));
    assert!(!equation_is_defined(&[0, 0, 0, 2000, 0]));
    assert!(!equation_is_defined(&[0, 0, 70000, 0, 0]));
    assert!(!equation_is_defined(&[0, 0, 0, 0, 1]));
    assert!(equation_is_defined(&[1, 0, 0, 0, 1]));
}

#[test]
fn coin_names() {
    assert_eq!(number_to_coin(2), "red coin");
    assert_eq!(number_to_coin(3), "corroded coin");
    assert_eq!(number_to_coin(5), "shiny coin");
    assert_eq!(number_to_coin(7), "concave coin");
    assert_eq!(number_to_coin(9), "blue coin");
    assert_eq!(number_to_coin(4), "unknown coin");
}

#[test]
fn solver_finds_the_one_order() {
    let (solutions, complete) = solve_coins(&[2, 3, 5, 7, 9]);
    assert!(complete);
    assert_eq!(solutions, vec![vec![9, 2, 5, 7, 3]]);
}

#[test]
fn solver_stops_where_the_equation_overflows() {
    assert_eq!(solve_coins(&[2000, 2000, 2000, 2000, 2000]), (vec![], false));
}

#[test]
fn solver_needs_five_coins() {
    assert_eq!(solve_coins(&[1, 2]), (vec![], false));
}

#[test]
fn solver_without_a_solution() {
    let (solutions, complete) = solve_coins(&[1, 1, 1, 1, 1]);
    assert!(complete);
    assert!(solutions.is_empty());
}
